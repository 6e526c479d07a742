//! Generation-checked storage for ports and connections.
//!
//! Ports live in slot-based arenas with generation (version) checking: a
//! handle names a slot together with the version the slot had when the handle
//! was issued, so a handle that outlives its entry is detectably stale rather
//! than silently aliasing a reused slot. The arenas are `slotmap` maps held
//! behind opaque wrappers; a handle is the 64-bit packing of a slotmap key
//! (odd version word in the high 32 bits, slot index in the low 32 bits).
//! Each wrapper's observable contents are named by an uninterpreted view
//! function, and every method is specified against that view.

use slotmap::Key;
use vstd::prelude::*;

verus! {

/// The slot index packed into the low half of a handle.
pub open spec fn key_slot(k: u64) -> u64 {
    k & 0xffff_ffffu64
}

/// Whether `k` has the shape of an issued handle: slotmap stores occupied
/// slots under odd version words, so bit 32 of every issued handle is set.
pub open spec fn key_canonical(k: u64) -> bool {
    k & 0x1_0000_0000u64 == 0x1_0000_0000u64
}

/// The slot index that slotmap reserves for its null key; no issued handle
/// uses it.
pub open spec fn null_slot() -> u64 {
    0xffff_ffffu64
}

/// Storage for input ports: each live handle maps to the port's constant
/// sample word.
#[verifier::external_body]
pub struct InputPorts {
    map: slotmap::SlotMap<slotmap::DefaultKey, u32>,
}

/// The live contents of an input-port arena: every handle issued by `insert`
/// and not yet removed, mapped to the sample word its slot holds.
pub uninterp spec fn input_ports_view(a: InputPorts) -> Map<u64, u32>;

/// How many insertions the arena has ever performed; slotmap's slot table
/// never grows past that count, which keeps `insert` clear of the map's
/// capacity limit.
pub uninterp spec fn input_ports_inserts(a: InputPorts) -> nat;

impl InputPorts {
    /// Relies on slotmap::SlotMap::new: a freshly created slot map is empty.
    #[verifier::external_body]
    pub(crate) fn new() -> (r: InputPorts)
        ensures
            forall|k: u64| ! #[trigger] input_ports_view(r).dom().contains(k),
            input_ports_inserts(r) == 0,
    {
        InputPorts { map: slotmap::SlotMap::new() }
    }

    /// Relies on slotmap::SlotMap::insert: the value is stored in a vacant
    /// slot under a freshly bumped odd version, so the returned handle is
    /// canonical, not null, and its slot index is not the slot index of any
    /// live handle.
    #[verifier::external_body]
    pub(crate) fn insert(&mut self, value: u32) -> (k: u64)
        requires
            input_ports_inserts(*old(self)) < 0xffff_fffd,
        ensures
            input_ports_view(*final(self)) == input_ports_view(*old(self)).insert(k, value),
            !input_ports_view(*old(self)).dom().contains(k),
            forall|k2: u64| #[trigger] input_ports_view(*old(self)).dom().contains(k2)
                ==> key_slot(k2) != key_slot(k),
            key_canonical(k),
            key_slot(k) != null_slot(),
            input_ports_inserts(*final(self)) == input_ports_inserts(*old(self)) + 1,
    {
        self.map.insert(value).data().as_ffi()
    }

    /// Relies on slotmap::SlotMap::get: for a canonical handle, returns the
    /// stored value exactly when the handle's version still matches its slot.
    #[verifier::external_body]
    pub(crate) fn get(&self, k: u64) -> (r: Option<u32>)
        ensures
            key_canonical(k) ==> r == (if input_ports_view(*self).dom().contains(k) {
                Some(input_ports_view(*self)[k])
            } else {
                None::<u32>
            }),
    {
        self.map.get(slotmap::DefaultKey::from(slotmap::KeyData::from_ffi(k))).copied()
    }

    /// Relies on slotmap::SlotMap::get_mut: for a canonical handle, the slot
    /// is rewritten exactly when the handle is still live, and the map is
    /// untouched otherwise.
    #[verifier::external_body]
    pub(crate) fn set_value(&mut self, k: u64, value: u32) -> (r: bool)
        requires
            key_canonical(k),
        ensures
            r == input_ports_view(*old(self)).dom().contains(k),
            r ==> input_ports_view(*final(self))
                == input_ports_view(*old(self)).insert(k, value),
            !r ==> input_ports_view(*final(self)) == input_ports_view(*old(self)),
            input_ports_inserts(*final(self)) == input_ports_inserts(*old(self)),
    {
        match self.map.get_mut(slotmap::DefaultKey::from(slotmap::KeyData::from_ffi(k))) {
            Some(slot) => {
                *slot = value;
                true
            }
            None => false,
        }
    }

    /// Relies on slotmap::SlotMap::remove: for a canonical handle, the entry
    /// is removed exactly when the handle is still live; the slot's version
    /// is bumped so the handle is stale afterwards.
    #[verifier::external_body]
    pub(crate) fn remove(&mut self, k: u64) -> (r: Option<u32>)
        requires
            key_canonical(k),
        ensures
            input_ports_view(*final(self)) == input_ports_view(*old(self)).remove(k),
            r == (if input_ports_view(*old(self)).dom().contains(k) {
                Some(input_ports_view(*old(self))[k])
            } else {
                None::<u32>
            }),
            input_ports_inserts(*final(self)) == input_ports_inserts(*old(self)),
    {
        self.map.remove(slotmap::DefaultKey::from(slotmap::KeyData::from_ffi(k)))
    }
}

/// Storage for output ports: each live handle maps to the block of sample
/// words the port most recently produced.
#[verifier::external_body]
pub struct OutputPorts {
    map: slotmap::SlotMap<slotmap::DefaultKey, Vec<u32>>,
}

/// The live contents of an output-port arena: every handle issued by `insert`
/// and not yet removed, mapped to the buffer its slot holds.
pub uninterp spec fn output_ports_view(a: OutputPorts) -> Map<u64, Seq<u32>>;

/// How many insertions the arena has ever performed.
pub uninterp spec fn output_ports_inserts(a: OutputPorts) -> nat;

impl OutputPorts {
    /// Relies on slotmap::SlotMap::new: a freshly created slot map is empty.
    #[verifier::external_body]
    pub(crate) fn new() -> (r: OutputPorts)
        ensures
            forall|k: u64| ! #[trigger] output_ports_view(r).dom().contains(k),
            output_ports_inserts(r) == 0,
    {
        OutputPorts { map: slotmap::SlotMap::new() }
    }

    /// Relies on slotmap::SlotMap::insert, as for the input arena: the
    /// returned handle is canonical, not null, and slot-fresh.
    #[verifier::external_body]
    pub(crate) fn insert(&mut self, value: Vec<u32>) -> (k: u64)
        requires
            output_ports_inserts(*old(self)) < 0xffff_fffd,
        ensures
            output_ports_view(*final(self)) == output_ports_view(*old(self)).insert(k, value@),
            !output_ports_view(*old(self)).dom().contains(k),
            forall|k2: u64| #[trigger] output_ports_view(*old(self)).dom().contains(k2)
                ==> key_slot(k2) != key_slot(k),
            key_canonical(k),
            key_slot(k) != null_slot(),
            output_ports_inserts(*final(self)) == output_ports_inserts(*old(self)) + 1,
    {
        self.map.insert(value).data().as_ffi()
    }

    /// Relies on slotmap::SlotMap::get: for a canonical handle, returns a
    /// copy of the stored buffer exactly when the handle is still live.
    #[verifier::external_body]
    pub(crate) fn get_clone(&self, k: u64) -> (r: Option<Vec<u32>>)
        ensures
            key_canonical(k) ==> (match r {
                Some(buf) => output_ports_view(*self).dom().contains(k)
                    && buf@ == output_ports_view(*self)[k],
                None => !output_ports_view(*self).dom().contains(k),
            }),
    {
        self.map.get(slotmap::DefaultKey::from(slotmap::KeyData::from_ffi(k))).cloned()
    }

    /// Relies on slotmap::SlotMap::contains_key: true for a canonical handle
    /// exactly when the handle's version still matches its slot.
    #[verifier::external_body]
    pub(crate) fn contains(&self, k: u64) -> (r: bool)
        ensures
            key_canonical(k) ==> r == output_ports_view(*self).dom().contains(k),
    {
        self.map.contains_key(slotmap::DefaultKey::from(slotmap::KeyData::from_ffi(k)))
    }

    /// Relies on slotmap::SlotMap::get_mut, as for the input arena.
    #[verifier::external_body]
    pub(crate) fn set_value(&mut self, k: u64, value: Vec<u32>) -> (r: bool)
        requires
            key_canonical(k),
        ensures
            r == output_ports_view(*old(self)).dom().contains(k),
            r ==> output_ports_view(*final(self))
                == output_ports_view(*old(self)).insert(k, value@),
            !r ==> output_ports_view(*final(self)) == output_ports_view(*old(self)),
            output_ports_inserts(*final(self)) == output_ports_inserts(*old(self)),
    {
        match self.map.get_mut(slotmap::DefaultKey::from(slotmap::KeyData::from_ffi(k))) {
            Some(slot) => {
                *slot = value;
                true
            }
            None => false,
        }
    }

    /// Relies on slotmap::SlotMap::remove, as for the input arena.
    #[verifier::external_body]
    pub(crate) fn remove(&mut self, k: u64) -> (r: Option<Vec<u32>>)
        requires
            key_canonical(k),
        ensures
            output_ports_view(*final(self)) == output_ports_view(*old(self)).remove(k),
            (match r {
                Some(buf) => output_ports_view(*old(self)).dom().contains(k)
                    && buf@ == output_ports_view(*old(self))[k],
                None => !output_ports_view(*old(self)).dom().contains(k),
            }),
            output_ports_inserts(*final(self)) == output_ports_inserts(*old(self)),
    {
        self.map.remove(slotmap::DefaultKey::from(slotmap::KeyData::from_ffi(k)))
    }
}

/// The connection table: a sparse map from input-port handles to output-port
/// handles, keyed by the same generation-checked handles as the arenas.
#[verifier::external_body]
pub struct Connections {
    map: slotmap::SecondaryMap<slotmap::DefaultKey, slotmap::DefaultKey>,
}

/// The live contents of the connection table.
pub uninterp spec fn connections_view(c: Connections) -> Map<u64, u64>;

impl Connections {
    /// Relies on slotmap::SecondaryMap::new: a freshly created map is empty.
    #[verifier::external_body]
    pub(crate) fn new() -> (r: Connections)
        ensures
            forall|k: u64| ! #[trigger] connections_view(r).dom().contains(k),
    {
        Connections { map: slotmap::SecondaryMap::new() }
    }

    /// Relies on slotmap::SecondaryMap::insert: it stores one entry per slot
    /// index, so the write lands exactly when the key is canonical, not null,
    /// and no other live entry occupies the key's slot; the insert can
    /// silently miss otherwise. The value is carried through KeyData's 64-bit
    /// packing, which is lossless only for canonical handles.
    #[verifier::external_body]
    pub(crate) fn insert(&mut self, k: u64, v: u64)
        ensures
            (key_canonical(k) && key_slot(k) != null_slot() && key_canonical(v)
                && (forall|k2: u64| #[trigger] connections_view(*old(self)).dom().contains(k2)
                        && key_slot(k2) == key_slot(k) ==> k2 == k))
                ==> connections_view(*final(self))
                    == connections_view(*old(self)).insert(k, v),
    {
        let _ = self.map.insert(
            slotmap::DefaultKey::from(slotmap::KeyData::from_ffi(k)),
            slotmap::DefaultKey::from(slotmap::KeyData::from_ffi(v)),
        );
    }

    /// Relies on slotmap::SecondaryMap::get: for a canonical key, returns the
    /// mapped handle exactly when the key's version matches its slot.
    #[verifier::external_body]
    pub(crate) fn get(&self, k: u64) -> (r: Option<u64>)
        ensures
            key_canonical(k) ==> r == (if connections_view(*self).dom().contains(k) {
                Some(connections_view(*self)[k])
            } else {
                None::<u64>
            }),
    {
        self.map
            .get(slotmap::DefaultKey::from(slotmap::KeyData::from_ffi(k)))
            .map(|v| v.data().as_ffi())
    }

    /// Relies on slotmap::SecondaryMap::remove: for a canonical key, the
    /// entry is removed exactly when the key's version matches its slot, and
    /// the map is untouched otherwise.
    #[verifier::external_body]
    pub(crate) fn remove(&mut self, k: u64)
        requires
            key_canonical(k),
        ensures
            connections_view(*final(self)) == connections_view(*old(self)).remove(k),
    {
        let _ = self.map.remove(slotmap::DefaultKey::from(slotmap::KeyData::from_ffi(k)));
    }

    /// Relies on slotmap::SecondaryMap::iter: it visits every occupied slot
    /// exactly once, each under its stored odd version, so the returned pairs
    /// enumerate the live entries (in unspecified order) and every listed key
    /// is canonical.
    #[verifier::external_body]
    pub(crate) fn entries(&self) -> (r: Vec<(u64, u64)>)
        ensures
            forall|i: int| 0 <= i < r@.len()
                ==> connections_view(*self).contains_pair((#[trigger] r@[i]).0, r@[i].1)
                    && key_canonical(r@[i].0),
            forall|k: u64| #[trigger] connections_view(*self).dom().contains(k)
                ==> exists|i: int| 0 <= i < r@.len() && (#[trigger] r@[i]).0 == k,
    {
        self.map.iter().map(|(k, v)| (k.data().as_ffi(), v.data().as_ffi())).collect()
    }
}

} // verus!
