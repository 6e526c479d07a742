//! The signal-flow graph: modules, ports, connections, block execution.

use crate::arena::{
    key_canonical, key_slot, null_slot, connections_view, input_ports_inserts, input_ports_view,
    output_ports_inserts, output_ports_view, Connections, InputPorts, OutputPorts,
};
use crate::audio_processor::{AudioProcessor, Sample};
use vstd::prelude::*;

verus! {

/// Handle of a module registered in a graph.
pub type ModuleId = u64;

/// Handle of one input port.
pub type ModuleInputId = u64;

/// Handle of one output port.
pub type ModuleOutputId = u64;

/// A typed failure of a graph operation.
#[derive(Clone, Copy, PartialEq, Eq, Structural, Debug)]
pub enum GraphError {
    /// A handle referred to an entry that was removed, or never belonged to
    /// this graph.
    InvalidHandle,
    /// A unit's reported port counts disagreed with the ports declared for
    /// its module.
    ContractMismatch,
}

/// An all-zero block of `n` samples.
pub open spec fn silence(n: nat) -> Seq<Sample> {
    Seq::new(n, |i: int| 0u32)
}

/// The handles a live arena hands out: canonical, never the null slot, and
/// with pairwise distinct slot indices.
pub open spec fn keys_ok<V>(m: Map<u64, V>) -> bool {
    &&& forall|k: u64| #[trigger] m.dom().contains(k)
            ==> key_canonical(k) && key_slot(k) != null_slot()
    &&& forall|k1: u64, k2: u64|
            #[trigger] m.dom().contains(k1) && #[trigger] m.dom().contains(k2)
            && key_slot(k1) == key_slot(k2) ==> k1 == k2
}

/// Inserting a slot-fresh canonical handle keeps an arena's handles
/// well-formed.
proof fn lemma_keys_ok_insert<V>(m: Map<u64, V>, k: u64, v: V)
    requires
        keys_ok(m),
        key_canonical(k),
        key_slot(k) != null_slot(),
        forall|k2: u64| #[trigger] m.dom().contains(k2) ==> key_slot(k2) != key_slot(k),
    ensures
        keys_ok(m.insert(k, v)),
{
    assert forall|k1: u64, k2: u64|
        m.insert(k, v).dom().contains(k1) && m.insert(k, v).dom().contains(k2)
        && key_slot(k1) == key_slot(k2) implies k1 == k2 by {
        if k1 != k && k2 != k {
            assert(m.dom().contains(k1));
            assert(m.dom().contains(k2));
        } else if k1 == k && k2 != k {
            assert(m.dom().contains(k2));
        } else if k1 != k && k2 == k {
            assert(m.dom().contains(k1));
        }
    }
}

/// Whether `k` has the canonical shape of an issued handle (bit 32 set).
fn is_canonical(k: u64) -> (r: bool)
    ensures
        r == key_canonical(k),
{
    k & 0x1_0000_0000u64 == 0x1_0000_0000u64
}

/// One constant broadcast across a whole block of `n` samples.
fn broadcast_block(n: usize, value: Sample) -> (r: Vec<Sample>)
    ensures
        r@.len() == n as nat,
        forall|i: int| 0 <= i < r@.len() ==> r@[i] == value,
{
    vec![value; n]
}

/// A freshly allocated all-zero block of `n` samples.
fn zero_block(n: usize) -> (r: Vec<Sample>)
    ensures
        r@ == silence(n as nat),
{
    let r = vec![0u32; n];
    proof {
        assert(r@ =~= silence(n as nat));
    }
    r
}

/// Whether `bufs` is exactly `count` buffers of exactly `block` samples each.
fn well_shaped(bufs: &Vec<Vec<Sample>>, count: usize, block: usize) -> (r: bool)
    ensures
        r == (bufs@.len() == count
            && forall|i: int| 0 <= i < bufs@.len() ==> (#[trigger] bufs@[i]).len() == block),
{
    if bufs.len() != count {
        return false;
    }
    let mut i: usize = 0;
    while i < bufs.len()
        invariant
            i <= bufs@.len(),
            forall|j: int| 0 <= j < i ==> (#[trigger] bufs@[j]).len() == block,
        decreases bufs@.len() - i,
    {
        if bufs[i].len() != block {
            return false;
        }
        i = i + 1;
    }
    true
}

/// One processing unit bound to named, durable port identities inside one
/// graph.
pub struct Module<P> {
    processor: P,
    inputs: Vec<(String, ModuleInputId)>,
    outputs: Vec<(String, ModuleOutputId)>,
}

impl<P> Module<P> {
    /// The unit this module owns, as a spec-level value.
    pub closed spec fn proc(&self) -> P {
        self.processor
    }

    /// The declared (name, handle) input pairs, in declaration order.
    pub closed spec fn input_ports(&self) -> Seq<(String, ModuleInputId)> {
        self.inputs@
    }

    /// The declared (name, handle) output pairs, in declaration order.
    pub closed spec fn output_ports(&self) -> Seq<(String, ModuleOutputId)> {
        self.outputs@
    }

    /// The ordered (name, handle) pairs of the module's input ports.
    pub fn inputs(&self) -> (r: &Vec<(String, ModuleInputId)>)
        ensures
            r@ == self.input_ports(),
    {
        &self.inputs
    }

    /// The ordered (name, handle) pairs of the module's output ports.
    pub fn outputs(&self) -> (r: &Vec<(String, ModuleOutputId)>)
        ensures
            r@ == self.output_ports(),
    {
        &self.outputs
    }

    /// Mutable access to the input pairs of a free-standing module value.
    pub fn inputs_mut(&mut self) -> (r: &mut Vec<(String, ModuleInputId)>)
        ensures
            r@ == old(self).input_ports(),
            final(self).input_ports() == final(r)@,
            final(self).output_ports() == old(self).output_ports(),
            final(self).proc() == old(self).proc(),
    {
        &mut self.inputs
    }

    /// Mutable access to the output pairs of a free-standing module value.
    pub fn outputs_mut(&mut self) -> (r: &mut Vec<(String, ModuleOutputId)>)
        ensures
            r@ == old(self).output_ports(),
            final(self).output_ports() == final(r)@,
            final(self).input_ports() == old(self).input_ports(),
            final(self).proc() == old(self).proc(),
    {
        &mut self.outputs
    }

    /// The owned processing unit, for introspection.
    pub fn processor(&self) -> (r: &P)
        ensures
            *r == self.proc(),
    {
        &self.processor
    }

    /// The owned processing unit, for direct parameter mutation by a host.
    pub fn processor_mut(&mut self) -> (r: &mut P)
        ensures
            *r == old(self).proc(),
            final(self).proc() == *final(r),
            final(self).input_ports() == old(self).input_ports(),
            final(self).output_ports() == old(self).output_ports(),
    {
        &mut self.processor
    }

    /// The handle of input port `idx`, if the module declares that many.
    pub fn input_id(&self, idx: usize) -> (r: Option<ModuleInputId>)
        ensures
            r == (if idx < self.input_ports().len() {
                Some(self.input_ports()[idx as int].1)
            } else {
                None::<ModuleInputId>
            }),
    {
        match self.inputs.get(idx) {
            Some(pair) => Some(pair.1),
            None => None,
        }
    }

    /// The handle of output port `idx`, if the module declares that many.
    pub fn output_id(&self, idx: usize) -> (r: Option<ModuleOutputId>)
        ensures
            r == (if idx < self.output_ports().len() {
                Some(self.output_ports()[idx as int].1)
            } else {
                None::<ModuleOutputId>
            }),
    {
        match self.outputs.get(idx) {
            Some(pair) => Some(pair.1),
            None => None,
        }
    }
}

/// One audio signal-flow network: all modules, all port storage and the
/// connection table, executed one block at a time.
pub struct Graph<P> {
    nodes: Vec<(ModuleId, Module<P>)>,
    in_ports: InputPorts,
    out_ports: OutputPorts,
    conns: Connections,
    block_size: usize,
    next_module_id: u64,
    in_allocs: u64,
    out_allocs: u64,
}

impl<P> Graph<P> {
    /// The constant sample word of every live input port, by handle.
    pub closed spec fn constants(&self) -> Map<ModuleInputId, Sample> {
        input_ports_view(self.in_ports)
    }

    /// The most recently produced block of every live output port, by handle.
    pub closed spec fn buffers(&self) -> Map<ModuleOutputId, Seq<Sample>> {
        output_ports_view(self.out_ports)
    }

    /// The connection table: which output feeds each connected input.
    pub closed spec fn connections(&self) -> Map<ModuleInputId, ModuleOutputId> {
        connections_view(self.conns)
    }

    /// The registered modules with their handles, in insertion order, which
    /// is also execution order.
    pub closed spec fn modules(&self) -> Seq<(ModuleId, Module<P>)> {
        self.nodes@
    }

    /// The number of samples in every block of this graph.
    pub closed spec fn block_len(&self) -> nat {
        self.block_size as nat
    }

    /// The handle the next registered module will receive.
    pub closed spec fn next_id(&self) -> u64 {
        self.next_module_id
    }

    /// How many port allocations the graph has performed so far.
    pub closed spec fn allocations(&self) -> (nat, nat) {
        (self.in_allocs as nat, self.out_allocs as nat)
    }

    /// Whether module `m` declares `k` as one of its input ports.
    pub open spec fn module_has_input_key(m: Module<P>, k: ModuleInputId) -> bool {
        exists|j: int| 0 <= j < m.input_ports().len() && (#[trigger] m.input_ports()[j]).1 == k
    }

    /// Whether module `m` declares `k` as one of its output ports.
    pub open spec fn module_has_output_key(m: Module<P>, k: ModuleOutputId) -> bool {
        exists|j: int| 0 <= j < m.output_ports().len() && (#[trigger] m.output_ports()[j]).1 == k
    }

    /// Whether some registered module declares output port `k`.
    pub open spec fn declares_output(&self, k: ModuleOutputId) -> bool {
        exists|i: int| 0 <= i < self.modules().len()
            && Self::module_has_output_key((#[trigger] self.modules()[i]).1, k)
    }

    /// Module handles are never shared: two registered entries carrying the
    /// same handle sit at the same position of the execution order.
    pub proof fn lemma_module_ids_unique(g: Graph<P>, a: int, b: int)
        requires
            g.wf(),
            0 <= a < g.modules().len(),
            0 <= b < g.modules().len(),
            g.modules()[a].0 == g.modules()[b].0,
        ensures
            a == b,
    {
        if a < b {
            assert(g.modules()[a].0 < g.modules()[b].0);
        } else if b < a {
            assert(g.modules()[b].0 < g.modules()[a].0);
        }
    }

    /// The arenas issue canonical, non-null handles with pairwise distinct
    /// slots, so a live handle never aliases another.
    pub closed spec fn arenas_wf(&self) -> bool {
        &&& keys_ok(self.constants())
        &&& keys_ok(self.buffers())
        &&& input_ports_inserts(self.in_ports) == self.in_allocs as nat
        &&& output_ports_inserts(self.out_ports) == self.out_allocs as nat
    }

    /// Every port handle a registered module holds is live in its arena.
    pub closed spec fn modules_wf(&self) -> bool {
        forall|i: int| 0 <= i < self.modules().len() ==> {
            let m = (#[trigger] self.modules()[i]).1;
            &&& forall|j: int| 0 <= j < m.input_ports().len()
                    ==> self.constants().dom().contains((#[trigger] m.input_ports()[j]).1)
            &&& forall|j: int| 0 <= j < m.output_ports().len()
                    ==> self.buffers().dom().contains((#[trigger] m.output_ports()[j]).1)
        }
    }

    /// No two declared input ports share a handle, across all modules.
    pub closed spec fn input_keys_distinct(&self) -> bool {
        forall|a: int, x: int, b: int, y: int|
            0 <= a < self.modules().len() && 0 <= x < self.modules()[a].1.input_ports().len()
            && 0 <= b < self.modules().len() && 0 <= y < self.modules()[b].1.input_ports().len()
            && (a != b || x != y)
            ==> (#[trigger] self.modules()[a].1.input_ports()[x]).1
                != (#[trigger] self.modules()[b].1.input_ports()[y]).1
    }

    /// No two declared output ports share a handle, across all modules.
    pub closed spec fn output_keys_distinct(&self) -> bool {
        forall|a: int, x: int, b: int, y: int|
            0 <= a < self.modules().len() && 0 <= x < self.modules()[a].1.output_ports().len()
            && 0 <= b < self.modules().len() && 0 <= y < self.modules()[b].1.output_ports().len()
            && (a != b || x != y)
            ==> (#[trigger] self.modules()[a].1.output_ports()[x]).1
                != (#[trigger] self.modules()[b].1.output_ports()[y]).1
    }

    /// Every connection joins a live input port to a live output port:
    /// removal purges the table, so no entry dangles.
    pub closed spec fn connections_wf(&self) -> bool {
        forall|k: u64| #[trigger] self.connections().dom().contains(k)
            ==> self.constants().dom().contains(k)
                && self.buffers().dom().contains(self.connections()[k])
    }

    /// Every stored output buffer is exactly one block long.
    pub closed spec fn buffers_sized(&self) -> bool {
        forall|k: u64| #[trigger] self.buffers().dom().contains(k)
            ==> self.buffers()[k].len() == self.block_len()
    }

    /// Module handles grow with insertion order and stay below the counter,
    /// so they are pairwise distinct and never reused.
    pub closed spec fn ids_wf(&self) -> bool {
        &&& forall|a: int, b: int| 0 <= a < b < self.modules().len()
                ==> (#[trigger] self.modules()[a]).0 < (#[trigger] self.modules()[b]).0
        &&& forall|a: int| 0 <= a < self.modules().len()
                ==> (#[trigger] self.modules()[a]).0 < self.next_id()
    }

    /// The graph invariant: every operation of this library preserves it.
    pub closed spec fn wf(&self) -> bool {
        &&& self.arenas_wf()
        &&& self.modules_wf()
        &&& self.input_keys_distinct()
        &&& self.output_keys_distinct()
        &&& self.connections_wf()
        &&& self.buffers_sized()
        &&& self.ids_wf()
    }

    /// An empty graph that will process `block_size` samples per block.
    pub fn new(block_size: usize) -> (r: Graph<P>)
        ensures
            r.wf(),
            r.constants() == Map::<ModuleInputId, Sample>::empty(),
            r.buffers() == Map::<ModuleOutputId, Seq<Sample>>::empty(),
            r.connections() == Map::<ModuleInputId, ModuleOutputId>::empty(),
            r.modules() == Seq::<(ModuleId, Module<P>)>::empty(),
            r.block_len() == block_size as nat,
            r.next_id() == 0,
            r.allocations() == (0nat, 0nat),
    {
        let r = Graph {
            nodes: Vec::new(),
            in_ports: InputPorts::new(),
            out_ports: OutputPorts::new(),
            conns: Connections::new(),
            block_size,
            next_module_id: 0,
            in_allocs: 0,
            out_allocs: 0,
        };
        proof {
            assert(r.modules() =~= Seq::<(ModuleId, Module<P>)>::empty());
        }
        r
    }

    /// The block length this graph was constructed with.
    pub fn block_size(&self) -> (r: usize)
        ensures
            r as nat == self.block_len(),
    {
        self.block_size
    }

    /// A graph that differs from a well-formed one only in port values and
    /// connection entries — same handles, same modules, same counters — is
    /// well-formed again once its connection table is known to join live
    /// ports.
    proof fn lemma_wf_from_views(pre: Graph<P>, post: Graph<P>)
        requires
            pre.wf(),
            post.constants().dom() == pre.constants().dom(),
            post.buffers() == pre.buffers(),
            post.modules() == pre.modules(),
            post.next_id() == pre.next_id(),
            post.block_len() == pre.block_len(),
            input_ports_inserts(post.in_ports) == input_ports_inserts(pre.in_ports),
            output_ports_inserts(post.out_ports) == output_ports_inserts(pre.out_ports),
            post.in_allocs == pre.in_allocs,
            post.out_allocs == pre.out_allocs,
            forall|k: u64| #[trigger] post.connections().dom().contains(k)
                ==> post.constants().dom().contains(k)
                    && post.buffers().dom().contains(post.connections()[k]),
        ensures
            post.wf(),
    {
        assert forall|k: u64| #[trigger] post.constants().dom().contains(k)
            implies key_canonical(k) && key_slot(k) != null_slot() by {
            assert(pre.constants().dom().contains(k));
        }
        assert forall|k1: u64, k2: u64|
            #[trigger] post.constants().dom().contains(k1)
            && #[trigger] post.constants().dom().contains(k2)
            && key_slot(k1) == key_slot(k2) implies k1 == k2 by {
            assert(pre.constants().dom().contains(k1));
            assert(pre.constants().dom().contains(k2));
        }
        assert forall|i: int| 0 <= i < post.modules().len() implies {
            let m = (#[trigger] post.modules()[i]).1;
            &&& forall|j: int| 0 <= j < m.input_ports().len()
                    ==> post.constants().dom().contains((#[trigger] m.input_ports()[j]).1)
            &&& forall|j: int| 0 <= j < m.output_ports().len()
                    ==> post.buffers().dom().contains((#[trigger] m.output_ports()[j]).1)
        } by {
            let m = post.modules()[i].1;
            assert(pre.modules()[i].1 == m);
            assert forall|j: int| 0 <= j < m.input_ports().len()
                implies post.constants().dom().contains(
                    (#[trigger] m.input_ports()[j]).1) by {
                assert(pre.constants().dom().contains(m.input_ports()[j].1));
            }
            assert forall|j: int| 0 <= j < m.output_ports().len()
                implies post.buffers().dom().contains(
                    (#[trigger] m.output_ports()[j]).1) by {
                assert(pre.buffers().dom().contains(m.output_ports()[j].1));
            }
        }
        assert forall|a: int, x: int, b: int, y: int|
            0 <= a < post.modules().len() && 0 <= x < post.modules()[a].1.input_ports().len()
            && 0 <= b < post.modules().len() && 0 <= y < post.modules()[b].1.input_ports().len()
            && (a != b || x != y)
            implies (#[trigger] post.modules()[a].1.input_ports()[x]).1
                != (#[trigger] post.modules()[b].1.input_ports()[y]).1 by {
            assert(pre.modules()[a].1.input_ports()[x].1
                != pre.modules()[b].1.input_ports()[y].1);
        }
        assert forall|a: int, x: int, b: int, y: int|
            0 <= a < post.modules().len() && 0 <= x < post.modules()[a].1.output_ports().len()
            && 0 <= b < post.modules().len() && 0 <= y < post.modules()[b].1.output_ports().len()
            && (a != b || x != y)
            implies (#[trigger] post.modules()[a].1.output_ports()[x]).1
                != (#[trigger] post.modules()[b].1.output_ports()[y]).1 by {
            assert(pre.modules()[a].1.output_ports()[x].1
                != pre.modules()[b].1.output_ports()[y].1);
        }
        assert forall|k: u64| #[trigger] post.buffers().dom().contains(k)
            implies post.buffers()[k].len() == post.block_len() by {
            assert(pre.buffers().dom().contains(k));
            assert(post.buffers()[k] == pre.buffers()[k]);
        }
        assert forall|a: int, b: int| 0 <= a < b < post.modules().len()
            implies (#[trigger] post.modules()[a]).0 < (#[trigger] post.modules()[b]).0 by {
            assert(pre.modules()[a].0 < pre.modules()[b].0);
        }
        assert forall|a: int| 0 <= a < post.modules().len()
            implies (#[trigger] post.modules()[a]).0 < post.next_id() by {
            assert(pre.modules()[a].0 < pre.next_id());
        }
    }

    /// A graph whose handles, module shapes, connections and counters match
    /// a well-formed graph — with every stored buffer still one block long —
    /// is well-formed, whatever the port values and unit states now are.
    proof fn lemma_wf_same_shape(pre: Graph<P>, post: Graph<P>)
        requires
            pre.wf(),
            post.constants().dom() == pre.constants().dom(),
            post.buffers().dom() == pre.buffers().dom(),
            forall|k: u64| #[trigger] post.buffers().dom().contains(k)
                ==> post.buffers()[k].len() == post.block_len(),
            post.connections() == pre.connections(),
            post.modules().len() == pre.modules().len(),
            forall|i: int| 0 <= i < post.modules().len()
                ==> (#[trigger] post.modules()[i]).0 == pre.modules()[i].0
                    && post.modules()[i].1.input_ports() == pre.modules()[i].1.input_ports()
                    && post.modules()[i].1.output_ports() == pre.modules()[i].1.output_ports(),
            post.next_id() == pre.next_id(),
            post.block_len() == pre.block_len(),
            input_ports_inserts(post.in_ports) == input_ports_inserts(pre.in_ports),
            output_ports_inserts(post.out_ports) == output_ports_inserts(pre.out_ports),
            post.in_allocs == pre.in_allocs,
            post.out_allocs == pre.out_allocs,
        ensures
            post.wf(),
    {
        assert forall|k: u64| #[trigger] post.constants().dom().contains(k)
            implies key_canonical(k) && key_slot(k) != null_slot() by {
            assert(pre.constants().dom().contains(k));
        }
        assert forall|k: u64| #[trigger] post.buffers().dom().contains(k)
            implies key_canonical(k) && key_slot(k) != null_slot() by {
            assert(pre.buffers().dom().contains(k));
        }
        assert forall|k1: u64, k2: u64|
            #[trigger] post.constants().dom().contains(k1)
            && #[trigger] post.constants().dom().contains(k2)
            && key_slot(k1) == key_slot(k2) implies k1 == k2 by {
            assert(pre.constants().dom().contains(k1));
            assert(pre.constants().dom().contains(k2));
        }
        assert forall|k1: u64, k2: u64|
            #[trigger] post.buffers().dom().contains(k1)
            && #[trigger] post.buffers().dom().contains(k2)
            && key_slot(k1) == key_slot(k2) implies k1 == k2 by {
            assert(pre.buffers().dom().contains(k1));
            assert(pre.buffers().dom().contains(k2));
        }
        assert forall|i: int| 0 <= i < post.modules().len() implies {
            let m = (#[trigger] post.modules()[i]).1;
            &&& forall|j: int| 0 <= j < m.input_ports().len()
                    ==> post.constants().dom().contains((#[trigger] m.input_ports()[j]).1)
            &&& forall|j: int| 0 <= j < m.output_ports().len()
                    ==> post.buffers().dom().contains((#[trigger] m.output_ports()[j]).1)
        } by {
            let m = post.modules()[i].1;
            let mp = pre.modules()[i].1;
            assert(m.input_ports() == mp.input_ports());
            assert(m.output_ports() == mp.output_ports());
            assert forall|j: int| 0 <= j < m.input_ports().len()
                implies post.constants().dom().contains(
                    (#[trigger] m.input_ports()[j]).1) by {
                assert(pre.constants().dom().contains(mp.input_ports()[j].1));
            }
            assert forall|j: int| 0 <= j < m.output_ports().len()
                implies post.buffers().dom().contains(
                    (#[trigger] m.output_ports()[j]).1) by {
                assert(pre.buffers().dom().contains(mp.output_ports()[j].1));
            }
        }
        assert forall|a: int, x: int, b: int, y: int|
            0 <= a < post.modules().len() && 0 <= x < post.modules()[a].1.input_ports().len()
            && 0 <= b < post.modules().len() && 0 <= y < post.modules()[b].1.input_ports().len()
            && (a != b || x != y)
            implies (#[trigger] post.modules()[a].1.input_ports()[x]).1
                != (#[trigger] post.modules()[b].1.input_ports()[y]).1 by {
            assert(post.modules()[a].1.input_ports() == pre.modules()[a].1.input_ports());
            assert(post.modules()[b].1.input_ports() == pre.modules()[b].1.input_ports());
            assert(pre.modules()[a].1.input_ports()[x].1
                != pre.modules()[b].1.input_ports()[y].1);
        }
        assert forall|a: int, x: int, b: int, y: int|
            0 <= a < post.modules().len() && 0 <= x < post.modules()[a].1.output_ports().len()
            && 0 <= b < post.modules().len() && 0 <= y < post.modules()[b].1.output_ports().len()
            && (a != b || x != y)
            implies (#[trigger] post.modules()[a].1.output_ports()[x]).1
                != (#[trigger] post.modules()[b].1.output_ports()[y]).1 by {
            assert(post.modules()[a].1.output_ports() == pre.modules()[a].1.output_ports());
            assert(post.modules()[b].1.output_ports() == pre.modules()[b].1.output_ports());
            assert(pre.modules()[a].1.output_ports()[x].1
                != pre.modules()[b].1.output_ports()[y].1);
        }
        assert forall|k: u64| #[trigger] post.connections().dom().contains(k)
            implies post.constants().dom().contains(k)
                && post.buffers().dom().contains(post.connections()[k]) by {
            assert(pre.connections().dom().contains(k));
            assert(pre.constants().dom().contains(k));
            assert(pre.buffers().dom().contains(pre.connections()[k]));
        }
        assert forall|a: int, b: int| 0 <= a < b < post.modules().len()
            implies (#[trigger] post.modules()[a]).0 < (#[trigger] post.modules()[b]).0 by {
            assert(pre.modules()[a].0 < pre.modules()[b].0);
        }
        assert forall|a: int| 0 <= a < post.modules().len()
            implies (#[trigger] post.modules()[a]).0 < post.next_id() by {
            assert(pre.modules()[a].0 < pre.next_id());
        }
    }

    /// How many modules are registered.
    pub fn module_count(&self) -> (r: usize)
        ensures
            r == self.modules().len(),
    {
        self.nodes.len()
    }

    /// The module registered under `id`, if it has not been removed.
    pub fn module(&self, id: ModuleId) -> (r: Option<&Module<P>>)
        ensures
            match r {
                Some(m) => exists|i: int| 0 <= i < self.modules().len()
                    && (#[trigger] self.modules()[i]) == (id, *m),
                None => forall|i: int| 0 <= i < self.modules().len()
                    ==> (#[trigger] self.modules()[i]).0 != id,
            },
    {
        let mut i: usize = 0;
        while i < self.nodes.len()
            invariant
                i <= self.nodes@.len(),
                forall|j: int| 0 <= j < i ==> (#[trigger] self.nodes@[j]).0 != id,
            decreases self.nodes@.len() - i,
        {
            if self.nodes[i].0 == id {
                proof {
                    assert(self.modules()[i as int] == (id, self.nodes@[i as int].1));
                }
                return Some(&self.nodes[i].1);
            }
            i = i + 1;
        }
        None
    }

    /// The constant currently stored in an input port. Fails exactly when
    /// the handle is stale.
    pub fn constant(&self, input: ModuleInputId) -> (r: Result<Sample, GraphError>)
        requires
            self.wf(),
        ensures
            match r {
                Ok(v) => self.constants().dom().contains(input)
                    && v == self.constants()[input],
                Err(e) => e == GraphError::InvalidHandle
                    && !self.constants().dom().contains(input),
            },
    {
        if !is_canonical(input) {
            return Err(GraphError::InvalidHandle);
        }
        match self.in_ports.get(input) {
            Some(v) => Ok(v),
            None => Err(GraphError::InvalidHandle),
        }
    }

    /// The block most recently produced into an output port. Fails exactly
    /// when the handle is stale: a removed port is detected, never silently
    /// read as silence.
    pub fn output_buffer(&self, output: ModuleOutputId) -> (r: Result<Vec<Sample>, GraphError>)
        requires
            self.wf(),
        ensures
            match r {
                Ok(buf) => self.buffers().dom().contains(output)
                    && buf@ == self.buffers()[output]
                    && buf@.len() == self.block_len(),
                Err(e) => e == GraphError::InvalidHandle
                    && !self.buffers().dom().contains(output),
            },
    {
        if !is_canonical(output) {
            return Err(GraphError::InvalidHandle);
        }
        match self.out_ports.get_clone(output) {
            Some(buf) => Ok(buf),
            None => Err(GraphError::InvalidHandle),
        }
    }

    /// Resolve one input port for the current block: the feeding output
    /// port's stored block when the input is connected, and otherwise the
    /// port's constant broadcast across a whole block. Fails exactly when
    /// the input handle — or, for a connected input, the feeding output
    /// handle — is stale.
    pub fn resolve_input(&self, input: ModuleInputId) -> (r: Result<Vec<Sample>, GraphError>)
        requires
            self.wf(),
        ensures
            match r {
                Ok(buf) => self.constants().dom().contains(input)
                    && (if self.connections().dom().contains(input) {
                        self.buffers().dom().contains(self.connections()[input])
                        && buf@ == self.buffers()[self.connections()[input]]
                        && buf@.len() == self.block_len()
                    } else {
                        buf@.len() == self.block_len()
                        && (forall|i: int| 0 <= i < buf@.len()
                                ==> buf@[i] == self.constants()[input])
                    }),
                Err(e) => e == GraphError::InvalidHandle
                    && (!self.constants().dom().contains(input)
                        || (self.connections().dom().contains(input)
                            && !self.buffers().dom().contains(self.connections()[input]))),
            },
    {
        self.resolve_port(input)
    }

    /// The body of `resolve_input`, for callers that maintain only the arena
    /// and connection-table invariants.
    fn resolve_port(&self, input: ModuleInputId) -> (r: Result<Vec<Sample>, GraphError>)
        requires
            self.arenas_wf(),
            self.connections_wf(),
            self.buffers_sized(),
        ensures
            match r {
                Ok(buf) => self.constants().dom().contains(input)
                    && (if self.connections().dom().contains(input) {
                        self.buffers().dom().contains(self.connections()[input])
                        && buf@ == self.buffers()[self.connections()[input]]
                        && buf@.len() == self.block_len()
                    } else {
                        buf@.len() == self.block_len()
                        && (forall|i: int| 0 <= i < buf@.len()
                                ==> buf@[i] == self.constants()[input])
                    }),
                Err(e) => e == GraphError::InvalidHandle
                    && (!self.constants().dom().contains(input)
                        || (self.connections().dom().contains(input)
                            && !self.buffers().dom().contains(self.connections()[input]))),
            },
    {
        if !is_canonical(input) {
            return Err(GraphError::InvalidHandle);
        }
        let value = match self.in_ports.get(input) {
            Some(v) => v,
            None => {
                return Err(GraphError::InvalidHandle);
            }
        };
        match self.conns.get(input) {
            Some(feeding) => {
                proof {
                    assert(self.connections() == connections_view(self.conns));
                    assert(self.connections().dom().contains(input));
                    assert(feeding == self.connections()[input]);
                    assert(self.buffers().dom().contains(feeding));
                }
                match self.out_ports.get_clone(feeding) {
                    Some(buf) => Ok(buf),
                    None => Err(GraphError::InvalidHandle),
                }
            }
            None => Ok(broadcast_block(self.block_size, value)),
        }
    }

    /// Connect `output` into `input`: afterwards the input resolves to the
    /// output port's block instead of its constant, and any earlier
    /// connection of `input` is overwritten (last write wins). Fails, leaving
    /// the graph untouched, exactly when either handle is stale.
    pub fn connect(&mut self, input: ModuleInputId, output: ModuleOutputId) -> (r: Result<(), GraphError>)
        requires
            old(self).wf(),
        ensures
            final(self).wf(),
            final(self).constants() == old(self).constants(),
            final(self).buffers() == old(self).buffers(),
            final(self).modules() == old(self).modules(),
            final(self).block_len() == old(self).block_len(),
            final(self).next_id() == old(self).next_id(),
            match r {
                Ok(()) => old(self).constants().dom().contains(input)
                    && old(self).buffers().dom().contains(output)
                    && final(self).connections()
                        == old(self).connections().insert(input, output),
                Err(e) => e == GraphError::InvalidHandle
                    && !(old(self).constants().dom().contains(input)
                        && old(self).buffers().dom().contains(output))
                    && *final(self) == *old(self),
            },
    {
        if !is_canonical(input) || !is_canonical(output) {
            return Err(GraphError::InvalidHandle);
        }
        let input_live = match self.in_ports.get(input) {
            Some(_) => true,
            None => false,
        };
        if !input_live || !self.out_ports.contains(output) {
            return Err(GraphError::InvalidHandle);
        }
        let ghost pre = *self;
        self.conns.insert(input, output);
        proof {
            assert(pre.connections() == connections_view(pre.conns));
            assert forall|k2: u64| #[trigger] connections_view(pre.conns).dom().contains(k2)
                && key_slot(k2) == key_slot(input) implies k2 == input by {
                assert(pre.connections().dom().contains(k2));
                assert(pre.constants().dom().contains(k2));
                assert(pre.constants().dom().contains(input));
            }
            assert(self.connections() == pre.connections().insert(input, output));
            assert forall|k: u64| #[trigger] self.connections().dom().contains(k)
                implies self.constants().dom().contains(k)
                    && self.buffers().dom().contains(self.connections()[k]) by {
                if k != input {
                    assert(pre.connections().dom().contains(k));
                }
            }
            Self::lemma_wf_from_views(pre, *self);
        }
        Ok(())
    }

    /// Write a new constant into an input port between blocks — the
    /// control-rate parameter path of a host. Fails exactly when the handle
    /// is stale.
    pub fn set_constant(&mut self, input: ModuleInputId, value: Sample) -> (r: Result<(), GraphError>)
        requires
            old(self).wf(),
        ensures
            final(self).wf(),
            final(self).buffers() == old(self).buffers(),
            final(self).connections() == old(self).connections(),
            final(self).modules() == old(self).modules(),
            final(self).block_len() == old(self).block_len(),
            final(self).next_id() == old(self).next_id(),
            match r {
                Ok(()) => old(self).constants().dom().contains(input)
                    && final(self).constants()
                        == old(self).constants().insert(input, value),
                Err(e) => e == GraphError::InvalidHandle
                    && !old(self).constants().dom().contains(input)
                    && final(self).constants() == old(self).constants(),
            },
    {
        if !is_canonical(input) {
            return Err(GraphError::InvalidHandle);
        }
        let ghost pre = *self;
        let updated = self.in_ports.set_value(input, value);
        proof {
            assert(self.constants().dom() =~= pre.constants().dom());
            assert forall|k: u64| #[trigger] self.connections().dom().contains(k)
                implies self.constants().dom().contains(k)
                    && self.buffers().dom().contains(self.connections()[k]) by {
                assert(pre.connections().dom().contains(k));
                assert(pre.constants().dom().contains(k));
            }
            Self::lemma_wf_from_views(pre, *self);
        }
        if updated {
            Ok(())
        } else {
            Err(GraphError::InvalidHandle)
        }
    }

    /// What removing the module at position `i` does: the module leaves the
    /// execution order, its ports leave the arenas — their handles become
    /// detectably stale — and every connection entry naming one of its ports,
    /// on either side, is purged; every other port, value and connection is
    /// untouched.
    pub open spec fn removed_module_post(pre: Graph<P>, post: Graph<P>, i: int) -> bool {
        let m = pre.modules()[i].1;
        &&& post.modules() == pre.modules().remove(i)
        &&& post.next_id() == pre.next_id()
        &&& post.block_len() == pre.block_len()
        &&& (forall|k: u64| (#[trigger] post.constants().dom().contains(k))
                <==> pre.constants().dom().contains(k) && !Self::module_has_input_key(m, k))
        &&& (forall|k: u64| #[trigger] post.constants().dom().contains(k)
                ==> post.constants()[k] == pre.constants()[k])
        &&& (forall|k: u64| (#[trigger] post.buffers().dom().contains(k))
                <==> pre.buffers().dom().contains(k) && !Self::module_has_output_key(m, k))
        &&& (forall|k: u64| #[trigger] post.buffers().dom().contains(k)
                ==> post.buffers()[k] == pre.buffers()[k])
        &&& (forall|k: u64| (#[trigger] post.connections().dom().contains(k))
                <==> pre.connections().dom().contains(k)
                    && !Self::module_has_input_key(m, k)
                    && !Self::module_has_output_key(m, pre.connections()[k]))
        &&& (forall|k: u64| #[trigger] post.connections().dom().contains(k)
                ==> post.connections()[k] == pre.connections()[k])
    }

    /// Exchange the unit owned by module `id` with `*unit` — the host's path
    /// for adjusting a unit's parameters directly: swap the unit out, change
    /// it, swap it back in. The module's ports, the arenas and the connection
    /// table are untouched. Fails, leaving graph and `*unit` unchanged,
    /// exactly when `id` names no registered module.
    pub fn swap_processor(&mut self, id: ModuleId, unit: &mut P) -> (r: Result<(), GraphError>)
        requires
            old(self).wf(),
        ensures
            final(self).wf(),
            final(self).constants() == old(self).constants(),
            final(self).buffers() == old(self).buffers(),
            final(self).connections() == old(self).connections(),
            final(self).block_len() == old(self).block_len(),
            final(self).next_id() == old(self).next_id(),
            match r {
                Ok(()) => exists|i: int| 0 <= i < old(self).modules().len()
                    && (#[trigger] old(self).modules()[i]).0 == id
                    && final(self).modules().len() == old(self).modules().len()
                    && (forall|j: int| 0 <= j < old(self).modules().len() && j != i
                            ==> final(self).modules()[j] == old(self).modules()[j])
                    && final(self).modules()[i].0 == id
                    && final(self).modules()[i].1.proc() == *old(unit)
                    && *final(unit) == old(self).modules()[i].1.proc()
                    && final(self).modules()[i].1.input_ports()
                        == old(self).modules()[i].1.input_ports()
                    && final(self).modules()[i].1.output_ports()
                        == old(self).modules()[i].1.output_ports(),
                Err(e) => e == GraphError::InvalidHandle
                    && *final(self) == *old(self)
                    && *final(unit) == *old(unit)
                    && (forall|i: int| 0 <= i < old(self).modules().len()
                        ==> (#[trigger] old(self).modules()[i]).0 != id),
            },
    {
        let mut i: usize = 0;
        while i < self.nodes.len()
            invariant
                old(self).wf(),
                *self == *old(self),
                *unit == *old(unit),
                i <= self.nodes@.len(),
                forall|j: int| 0 <= j < i ==> (#[trigger] self.nodes@[j]).0 != id,
            decreases self.nodes@.len() - i,
        {
            if self.nodes[i].0 == id {
                let ghost at = *self;
                let mut entry = self.nodes.remove(i);
                std::mem::swap(&mut entry.1.processor, unit);
                self.nodes.insert(i, entry);
                proof {
                    assert(self.nodes@ =~= at.nodes@.update(
                        i as int, (id, self.nodes@[i as int].1)));
                    assert forall|j: int| 0 <= j < self.modules().len()
                        implies (#[trigger] self.modules()[j]).0 == at.modules()[j].0
                            && self.modules()[j].1.input_ports()
                                == at.modules()[j].1.input_ports()
                            && self.modules()[j].1.output_ports()
                                == at.modules()[j].1.output_ports() by {
                    }
                    assert forall|k: u64| #[trigger] self.buffers().dom().contains(k)
                        implies self.buffers()[k].len() == self.block_len() by {
                        assert(at.buffers().dom().contains(k));
                    }
                    Self::lemma_wf_same_shape(at, *self);
                    assert((i as int) < at.modules().len() && at.modules()[i as int].0 == id);
                }
                return Ok(());
            }
            i = i + 1;
        }
        Err(GraphError::InvalidHandle)
    }

    /// Remove the module registered under `id`: it leaves the execution
    /// order, its port handles are retired — later lookups fail explicitly —
    /// and every connection entry naming one of its ports, on either side, is
    /// purged. Fails, leaving the graph untouched, exactly when `id` names no
    /// registered module.
    pub fn remove_module(&mut self, id: ModuleId) -> (r: Result<(), GraphError>)
        requires
            old(self).wf(),
        ensures
            final(self).wf(),
            final(self).block_len() == old(self).block_len(),
            final(self).next_id() == old(self).next_id(),
            match r {
                Ok(()) => exists|i: int| 0 <= i < old(self).modules().len()
                    && (#[trigger] old(self).modules()[i]).0 == id
                    && Self::removed_module_post(*old(self), *final(self), i),
                Err(e) => e == GraphError::InvalidHandle
                    && (forall|i: int| 0 <= i < old(self).modules().len()
                        ==> (#[trigger] old(self).modules()[i]).0 != id)
                    && *final(self) == *old(self),
            },
    {
        let mut i: usize = 0;
        while i < self.nodes.len()
            invariant
                old(self).wf(),
                *self == *old(self),
                i <= self.nodes@.len(),
                forall|j: int| 0 <= j < i ==> (#[trigger] self.nodes@[j]).0 != id,
            decreases self.nodes@.len() - i,
        {
            if self.nodes[i].0 == id {
                let ghost at = *self;
                self.remove_module_at(i);
                proof {
                    assert((i as int) < at.modules().len()
                        && at.modules()[i as int].0 == id
                        && Self::removed_module_post(at, *self, i as int));
                }
                return Ok(());
            }
            i = i + 1;
        }
        Err(GraphError::InvalidHandle)
    }

    /// Remove the module at position `i` of the execution order.
    fn remove_module_at(&mut self, i: usize)
        requires
            old(self).wf(),
            i < old(self).modules().len(),
        ensures
            final(self).wf(),
            Self::removed_module_post(*old(self), *final(self), i as int),
    {
        let ghost pre = *self;
        let entry = self.nodes.remove(i);
        let module = entry.1;
        let ghost m = module;
        let ghost in_list = m.input_ports();
        let ghost out_list = m.output_ports();

        proof {
            assert(pre.modules()[i as int].1 == m);
            assert forall|x: int| 0 <= x < in_list.len()
                implies pre.constants().dom().contains((#[trigger] in_list[x]).1)
                    && key_canonical(in_list[x].1) by {
                assert(pre.constants().dom().contains(m.input_ports()[x].1));
            }
            assert forall|x: int| 0 <= x < out_list.len()
                implies pre.buffers().dom().contains((#[trigger] out_list[x]).1)
                    && key_canonical(out_list[x].1) by {
                assert(pre.buffers().dom().contains(m.output_ports()[x].1));
            }
        }

        let mut j: usize = 0;
        while j < module.inputs.len()
            invariant
                pre.wf(),
                (i as int) < pre.modules().len(),
                m == pre.modules()[i as int].1,
                module.input_ports() == in_list,
                module.output_ports() == out_list,
                j <= in_list.len(),
                module.inputs@.len() == in_list.len(),
                forall|x: int| 0 <= x < in_list.len()
                    ==> pre.constants().dom().contains((#[trigger] in_list[x]).1)
                        && key_canonical(in_list[x].1),
                self.nodes@ == pre.nodes@.remove(i as int),
                self.out_ports == pre.out_ports,
                self.block_size == pre.block_size,
                self.next_module_id == pre.next_module_id,
                self.in_allocs == pre.in_allocs,
                self.out_allocs == pre.out_allocs,
                input_ports_inserts(self.in_ports) == input_ports_inserts(pre.in_ports),
                forall|k: u64| #[trigger] self.constants().dom().contains(k)
                    ==> pre.constants().dom().contains(k)
                        && self.constants()[k] == pre.constants()[k],
                forall|x: int| 0 <= x < j
                    ==> !self.constants().dom().contains((#[trigger] in_list[x]).1),
                forall|k: u64| #[trigger] pre.constants().dom().contains(k)
                    && !(exists|x: int| 0 <= x < j && (#[trigger] in_list[x]).1 == k)
                    ==> self.constants().dom().contains(k),
                forall|k: u64| #[trigger] self.connections().dom().contains(k)
                    ==> pre.connections().dom().contains(k)
                        && self.connections()[k] == pre.connections()[k],
                forall|x: int| 0 <= x < j
                    ==> !self.connections().dom().contains((#[trigger] in_list[x]).1),
                forall|k: u64| #[trigger] pre.connections().dom().contains(k)
                    && !(exists|x: int| 0 <= x < j && (#[trigger] in_list[x]).1 == k)
                    ==> self.connections().dom().contains(k),
            decreases module.inputs@.len() - j,
        {
            let ik = module.inputs[j].1;
            proof {
                assert(ik == in_list[j as int].1);
                assert(key_canonical(ik));
            }
            let _ = self.in_ports.remove(ik);
            self.conns.remove(ik);
            j = j + 1;
        }

        let ghost s1 = *self;
        let mut j2: usize = 0;
        while j2 < module.outputs.len()
            invariant
                pre.wf(),
                module.output_ports() == out_list,
                j2 <= out_list.len(),
                module.outputs@.len() == out_list.len(),
                forall|x: int| 0 <= x < out_list.len()
                    ==> pre.buffers().dom().contains((#[trigger] out_list[x]).1)
                        && key_canonical(out_list[x].1),
                self.nodes == s1.nodes,
                self.in_ports == s1.in_ports,
                self.conns == s1.conns,
                self.block_size == s1.block_size,
                self.next_module_id == s1.next_module_id,
                self.in_allocs == s1.in_allocs,
                self.out_allocs == s1.out_allocs,
                output_ports_inserts(self.out_ports) == output_ports_inserts(s1.out_ports),
                forall|k: u64| #[trigger] self.buffers().dom().contains(k)
                    ==> pre.buffers().dom().contains(k)
                        && self.buffers()[k] == pre.buffers()[k],
                forall|x: int| 0 <= x < j2
                    ==> !self.buffers().dom().contains((#[trigger] out_list[x]).1),
                forall|k: u64| #[trigger] pre.buffers().dom().contains(k)
                    && !(exists|x: int| 0 <= x < j2 && (#[trigger] out_list[x]).1 == k)
                    ==> self.buffers().dom().contains(k),
            decreases module.outputs@.len() - j2,
        {
            let ok = module.outputs[j2].1;
            proof {
                assert(ok == out_list[j2 as int].1);
                assert(key_canonical(ok));
            }
            let _ = self.out_ports.remove(ok);
            j2 = j2 + 1;
        }

        // Purge the connection entries whose source output was just retired.
        let ghost s2 = *self;
        proof {
            assert(s2.conns == s1.conns);
            assert(s2.connections() == s1.connections());
            assert forall|k: u64| #[trigger] self.connections().dom().contains(k)
                implies key_canonical(self.connections()[k])
                    && pre.buffers().dom().contains(self.connections()[k])
                    && pre.connections().dom().contains(k)
                    && self.connections()[k] == pre.connections()[k] by {
                assert(s1.connections().dom().contains(k));
                assert(pre.connections().dom().contains(k));
                assert(self.connections()[k] == pre.connections()[k]);
                assert(pre.buffers().dom().contains(pre.connections()[k]));
            }
        }
        let snapshot = self.conns.entries();
        let ghost snap = snapshot@;
        let ghost c2 = self.connections();
        let mut t: usize = 0;
        while t < snapshot.len()
            invariant
                snapshot@ == snap,
                t <= snap.len(),
                forall|x: int| 0 <= x < snap.len()
                    ==> c2.contains_pair((#[trigger] snap[x]).0, snap[x].1)
                        && key_canonical(snap[x].0),
                forall|k: u64| #[trigger] c2.dom().contains(k)
                    ==> exists|x: int| 0 <= x < snap.len() && (#[trigger] snap[x]).0 == k,
                forall|k: u64| #[trigger] c2.dom().contains(k)
                    ==> key_canonical(c2[k]),
                self.nodes == s2.nodes,
                self.in_ports == s2.in_ports,
                self.out_ports == s2.out_ports,
                self.block_size == s2.block_size,
                self.next_module_id == s2.next_module_id,
                self.in_allocs == s2.in_allocs,
                self.out_allocs == s2.out_allocs,
                c2 == s2.connections(),
                forall|k: u64| #[trigger] self.connections().dom().contains(k)
                    ==> c2.contains_pair(k, self.connections()[k]),
                forall|x: int| 0 <= x < t
                    ==> self.buffers().dom().contains((#[trigger] snap[x]).1)
                        || !self.connections().dom().contains(snap[x].0),
                forall|k: u64| #[trigger] c2.dom().contains(k)
                    && self.buffers().dom().contains(c2[k])
                    ==> self.connections().dom().contains(k),
            decreases snap.len() - t,
        {
            let pair = snapshot[t];
            proof {
                assert(c2.contains_pair(pair.0, pair.1));
                assert(pair.1 == c2[pair.0]);
                assert(key_canonical(pair.1));
            }
            let ghost before_c = self.connections();
            if !self.out_ports.contains(pair.1) {
                self.conns.remove(pair.0);
                proof {
                    assert(!self.buffers().dom().contains(pair.1));
                    assert forall|k: u64| #[trigger] self.connections().dom().contains(k)
                        implies c2.contains_pair(k, self.connections()[k]) by {
                        assert(before_c.dom().contains(k));
                        assert(self.connections()[k] == before_c[k]);
                    }
                    assert forall|k: u64| #[trigger] c2.dom().contains(k)
                        && self.buffers().dom().contains(c2[k])
                        implies self.connections().dom().contains(k) by {
                        if k == pair.0 {
                            assert(c2[k] == pair.1);
                            assert(false);
                        } else {
                            assert(before_c.dom().contains(k));
                        }
                    }
                }
            } else {
                proof {
                    assert(self.buffers().dom().contains(pair.1));
                }
            }
            t = t + 1;
        }

        proof {
            let post = *self;
            // The purge left exactly the entries that join two live ports.
            assert forall|k: u64| #[trigger] post.connections().dom().contains(k)
                implies c2.dom().contains(k)
                    && post.connections()[k] == c2[k]
                    && post.buffers().dom().contains(c2[k]) by {
                assert(c2.contains_pair(k, post.connections()[k]));
                if !post.buffers().dom().contains(c2[k]) {
                    let x = choose|x: int| 0 <= x < snap.len() && (#[trigger] snap[x]).0 == k;
                    assert(snap[x].1 == c2[k]);
                    assert(false);
                }
            }

            assert(post.in_ports == s2.in_ports && s2.in_ports == s1.in_ports);
            assert(post.constants() == s1.constants());
            assert(post.out_ports == s2.out_ports);
            assert(post.buffers() == s2.buffers());

            // Input ports: gone for the removed module, untouched otherwise.
            assert forall|k: u64| (#[trigger] post.constants().dom().contains(k))
                <==> pre.constants().dom().contains(k)
                    && !Self::module_has_input_key(m, k) by {
                if post.constants().dom().contains(k) {
                    assert(s1.constants().dom().contains(k));
                    assert(pre.constants().dom().contains(k));
                    if Self::module_has_input_key(m, k) {
                        let x = choose|x: int| 0 <= x < m.input_ports().len()
                            && (#[trigger] m.input_ports()[x]).1 == k;
                        assert(in_list[x].1 == k);
                        assert(!s1.constants().dom().contains(in_list[x].1));
                        assert(false);
                    }
                }
                if pre.constants().dom().contains(k) && !Self::module_has_input_key(m, k) {
                    assert(!(exists|x: int| 0 <= x < in_list.len()
                        && (#[trigger] in_list[x]).1 == k));
                    assert(s1.constants().dom().contains(k));
                    assert(post.constants().dom().contains(k));
                }
            }

            // Output ports likewise.
            assert forall|k: u64| (#[trigger] post.buffers().dom().contains(k))
                <==> pre.buffers().dom().contains(k)
                    && !Self::module_has_output_key(m, k) by {
                if post.buffers().dom().contains(k) {
                    assert(s2.buffers().dom().contains(k));
                    assert(pre.buffers().dom().contains(k));
                    if Self::module_has_output_key(m, k) {
                        let x = choose|x: int| 0 <= x < m.output_ports().len()
                            && (#[trigger] m.output_ports()[x]).1 == k;
                        assert(out_list[x].1 == k);
                        assert(!s2.buffers().dom().contains(out_list[x].1));
                        assert(false);
                    }
                }
                if pre.buffers().dom().contains(k) && !Self::module_has_output_key(m, k) {
                    assert(!(exists|x: int| 0 <= x < out_list.len()
                        && (#[trigger] out_list[x]).1 == k));
                    assert(s2.buffers().dom().contains(k));
                    assert(post.buffers().dom().contains(k));
                }
            }

            // Connections: exactly the entries naming two surviving ports.
            assert forall|k: u64| (#[trigger] post.connections().dom().contains(k))
                <==> pre.connections().dom().contains(k)
                    && !Self::module_has_input_key(m, k)
                    && !Self::module_has_output_key(m, pre.connections()[k]) by {
                if post.connections().dom().contains(k) {
                    assert(c2.dom().contains(k));
                    assert(pre.connections().dom().contains(k));
                    assert(c2[k] == pre.connections()[k]);
                    if Self::module_has_input_key(m, k) {
                        let x = choose|x: int| 0 <= x < m.input_ports().len()
                            && (#[trigger] m.input_ports()[x]).1 == k;
                        assert(!c2.dom().contains(in_list[x].1));
                        assert(false);
                    }
                    assert(post.buffers().dom().contains(pre.connections()[k]));
                }
                if pre.connections().dom().contains(k)
                    && !Self::module_has_input_key(m, k)
                    && !Self::module_has_output_key(m, pre.connections()[k]) {
                    assert(!(exists|x: int| 0 <= x < in_list.len()
                        && (#[trigger] in_list[x]).1 == k));
                    assert(c2.dom().contains(k));
                    assert(c2[k] == pre.connections()[k]);
                    assert(pre.buffers().dom().contains(pre.connections()[k]));
                    assert(post.buffers().dom().contains(c2[k]));
                    assert(post.connections().dom().contains(k));
                }
            }

            assert forall|k: u64| #[trigger] post.connections().dom().contains(k)
                implies post.connections()[k] == pre.connections()[k] by {
                assert(c2.contains_pair(k, post.connections()[k]));
            }

            assert(post.modules() == pre.modules().remove(i as int));

            // Well-formedness of the shrunken graph.
            assert forall|k: u64| #[trigger] post.constants().dom().contains(k)
                implies key_canonical(k) && key_slot(k) != null_slot() by {
                assert(pre.constants().dom().contains(k));
            }
            assert forall|k: u64| #[trigger] post.buffers().dom().contains(k)
                implies key_canonical(k) && key_slot(k) != null_slot() by {
                assert(pre.buffers().dom().contains(k));
            }
            assert forall|k1: u64, k2: u64|
                #[trigger] post.constants().dom().contains(k1)
                && #[trigger] post.constants().dom().contains(k2)
                && key_slot(k1) == key_slot(k2) implies k1 == k2 by {
                assert(pre.constants().dom().contains(k1));
                assert(pre.constants().dom().contains(k2));
            }
            assert forall|k1: u64, k2: u64|
                #[trigger] post.buffers().dom().contains(k1)
                && #[trigger] post.buffers().dom().contains(k2)
                && key_slot(k1) == key_slot(k2) implies k1 == k2 by {
                assert(pre.buffers().dom().contains(k1));
                assert(pre.buffers().dom().contains(k2));
            }
            assert forall|a: int| 0 <= a < post.modules().len() implies {
                let mm = (#[trigger] post.modules()[a]).1;
                &&& forall|x: int| 0 <= x < mm.input_ports().len()
                        ==> post.constants().dom().contains((#[trigger] mm.input_ports()[x]).1)
                &&& forall|x: int| 0 <= x < mm.output_ports().len()
                        ==> post.buffers().dom().contains((#[trigger] mm.output_ports()[x]).1)
            } by {
                let aa = if a < i as int { a } else { a + 1 };
                let mm = post.modules()[a].1;
                assert(pre.modules()[aa].1 == mm);
                assert(aa != i as int);
                assert forall|x: int| 0 <= x < mm.input_ports().len()
                    implies post.constants().dom().contains(
                        (#[trigger] mm.input_ports()[x]).1) by {
                    let k = mm.input_ports()[x].1;
                    assert(pre.constants().dom().contains(k));
                    if Self::module_has_input_key(m, k) {
                        let y = choose|y: int| 0 <= y < m.input_ports().len()
                            && (#[trigger] m.input_ports()[y]).1 == k;
                        assert(pre.modules()[aa].1.input_ports()[x].1
                            != pre.modules()[i as int].1.input_ports()[y].1);
                        assert(false);
                    }
                }
                assert forall|x: int| 0 <= x < mm.output_ports().len()
                    implies post.buffers().dom().contains(
                        (#[trigger] mm.output_ports()[x]).1) by {
                    let k = mm.output_ports()[x].1;
                    assert(pre.buffers().dom().contains(k));
                    if Self::module_has_output_key(m, k) {
                        let y = choose|y: int| 0 <= y < m.output_ports().len()
                            && (#[trigger] m.output_ports()[y]).1 == k;
                        assert(pre.modules()[aa].1.output_ports()[x].1
                            != pre.modules()[i as int].1.output_ports()[y].1);
                        assert(false);
                    }
                }
            }
            assert forall|a: int, x: int, b: int, y: int|
                0 <= a < post.modules().len() && 0 <= x < post.modules()[a].1.input_ports().len()
                && 0 <= b < post.modules().len() && 0 <= y < post.modules()[b].1.input_ports().len()
                && (a != b || x != y)
                implies (#[trigger] post.modules()[a].1.input_ports()[x]).1
                    != (#[trigger] post.modules()[b].1.input_ports()[y]).1 by {
                let aa = if a < i as int { a } else { a + 1 };
                let bb = if b < i as int { b } else { b + 1 };
                assert(pre.modules()[aa].1.input_ports()[x].1
                    != pre.modules()[bb].1.input_ports()[y].1);
            }
            assert forall|a: int, x: int, b: int, y: int|
                0 <= a < post.modules().len() && 0 <= x < post.modules()[a].1.output_ports().len()
                && 0 <= b < post.modules().len() && 0 <= y < post.modules()[b].1.output_ports().len()
                && (a != b || x != y)
                implies (#[trigger] post.modules()[a].1.output_ports()[x]).1
                    != (#[trigger] post.modules()[b].1.output_ports()[y]).1 by {
                let aa = if a < i as int { a } else { a + 1 };
                let bb = if b < i as int { b } else { b + 1 };
                assert(pre.modules()[aa].1.output_ports()[x].1
                    != pre.modules()[bb].1.output_ports()[y].1);
            }
            assert forall|k: u64| #[trigger] post.connections().dom().contains(k)
                implies post.constants().dom().contains(k)
                    && post.buffers().dom().contains(post.connections()[k]) by {
                assert(pre.connections().dom().contains(k));
                assert(pre.constants().dom().contains(k));
                assert(post.buffers().dom().contains(pre.connections()[k]));
            }
            assert forall|k: u64| #[trigger] post.buffers().dom().contains(k)
                implies post.buffers()[k].len() == post.block_len() by {
                assert(pre.buffers().dom().contains(k));
                assert(post.buffers()[k] == pre.buffers()[k]);
            }
            assert forall|a: int, b: int| 0 <= a < b < post.modules().len()
                implies (#[trigger] post.modules()[a]).0 < (#[trigger] post.modules()[b]).0 by {
                let aa = if a < i as int { a } else { a + 1 };
                let bb = if b < i as int { b } else { b + 1 };
                assert(pre.modules()[aa].0 < pre.modules()[bb].0);
            }
            assert forall|a: int| 0 <= a < post.modules().len()
                implies (#[trigger] post.modules()[a]).0 < post.next_id() by {
                let aa = if a < i as int { a } else { a + 1 };
                assert(pre.modules()[aa].0 < pre.next_id());
            }
        }
    }

    /// Copy one module's produced block set into its output ports. The
    /// buffers land exactly when the set holds one buffer per declared
    /// output, each one block long; an ill-shaped block set is discarded
    /// whole, and the ports keep their previous contents (a failed block is
    /// skipped, never replayed).
    fn commit_block(&mut self, outs: &Vec<(String, ModuleOutputId)>, produced: Vec<Vec<Sample>>)
        requires
            forall|x: int| 0 <= x < outs@.len()
                ==> old(self).buffers().dom().contains((#[trigger] outs@[x]).1),
            forall|x1: int, x2: int| 0 <= x1 < x2 < outs@.len()
                ==> (#[trigger] outs@[x1]).1 != (#[trigger] outs@[x2]).1,
            keys_ok(old(self).buffers()),
        ensures
            final(self).in_ports == old(self).in_ports,
            final(self).conns == old(self).conns,
            final(self).nodes == old(self).nodes,
            final(self).block_size == old(self).block_size,
            final(self).next_module_id == old(self).next_module_id,
            final(self).in_allocs == old(self).in_allocs,
            final(self).out_allocs == old(self).out_allocs,
            output_ports_inserts(final(self).out_ports)
                == output_ports_inserts(old(self).out_ports),
            final(self).buffers().dom() == old(self).buffers().dom(),
            if produced@.len() == outs@.len()
                && (forall|x: int| 0 <= x < produced@.len()
                        ==> (#[trigger] produced@[x]).len() == old(self).block_len())
            {
                &&& (forall|x: int| 0 <= x < outs@.len()
                        ==> final(self).buffers()[(#[trigger] outs@[x]).1] == produced@[x]@)
                &&& (forall|k: u64| #[trigger] final(self).buffers().dom().contains(k)
                        && !(exists|x: int| 0 <= x < outs@.len()
                                && (#[trigger] outs@[x]).1 == k)
                        ==> final(self).buffers()[k] == old(self).buffers()[k])
            } else {
                final(self).buffers() == old(self).buffers()
            },
    {
        let count = outs.len();
        if !well_shaped(&produced, count, self.block_size) {
            return;
        }
        let ghost start = *self;
        let ghost prod = produced@;
        let mut blocks = produced;
        let mut j: usize = 0;
        while j < count
            invariant
                keys_ok(start.buffers()),
                j <= count,
                count == outs@.len(),
                blocks@ == prod.subrange(j as int, count as int),
                prod.len() == count,
                forall|x: int| 0 <= x < prod.len()
                    ==> (#[trigger] prod[x]).len() == start.block_size,
                forall|x: int| 0 <= x < outs@.len()
                    ==> start.buffers().dom().contains((#[trigger] outs@[x]).1),
                forall|x1: int, x2: int| 0 <= x1 < x2 < outs@.len()
                    ==> (#[trigger] outs@[x1]).1 != (#[trigger] outs@[x2]).1,
                self.in_ports == start.in_ports,
                self.conns == start.conns,
                self.nodes == start.nodes,
                self.block_size == start.block_size,
                self.next_module_id == start.next_module_id,
                self.in_allocs == start.in_allocs,
                self.out_allocs == start.out_allocs,
                output_ports_inserts(self.out_ports)
                    == output_ports_inserts(start.out_ports),
                self.buffers().dom() == start.buffers().dom(),
                forall|x: int| 0 <= x < j
                    ==> self.buffers()[(#[trigger] outs@[x]).1] == prod[x]@,
                forall|k: u64| #[trigger] self.buffers().dom().contains(k)
                    && !(exists|x: int| 0 <= x < j && (#[trigger] outs@[x]).1 == k)
                    ==> self.buffers()[k] == start.buffers()[k],
            decreases count - j,
        {
            let ghost at = self.buffers();
            let key = outs[j].1;
            let block = blocks.remove(0);
            proof {
                assert(key == outs@[j as int].1);
                assert(self.buffers().dom().contains(key));
                assert(start.buffers().dom().contains(key));
                assert(key_canonical(key));
                assert(block@ == prod[j as int]@);
                assert(blocks@ =~= prod.subrange(j as int + 1, count as int));
            }
            let wrote = self.out_ports.set_value(key, block);
            proof {
                assert(wrote);
                assert(self.buffers() == at.insert(key, prod[j as int]@));
                assert(self.buffers().dom() =~= at.dom());
                assert forall|x: int| 0 <= x < j + 1
                    implies self.buffers()[(#[trigger] outs@[x]).1] == prod[x]@ by {
                    if x < j {
                        assert(outs@[x].1 != key);
                        assert(at[outs@[x].1] == prod[x]@);
                    }
                }
                assert forall|k: u64| #[trigger] self.buffers().dom().contains(k)
                    && !(exists|x: int| 0 <= x < j + 1 && (#[trigger] outs@[x]).1 == k)
                    implies self.buffers()[k] == start.buffers()[k] by {
                    assert(outs@[j as int].1 == key);
                    assert(k != key);
                    assert(at.dom().contains(k));
                    assert(at[k] == start.buffers()[k]);
                }
            }
            j = j + 1;
        }
    }

    /// What registering a module does: one fresh input port per declared
    /// (name, constant) pair, one fresh output port per declared name —
    /// every new output port seeded to silence — and the module appended
    /// with the new handles under handle `id`; everything already in the
    /// graph is untouched.
    pub open spec fn added_module_post(
        pre: Graph<P>,
        post: Graph<P>,
        id: ModuleId,
        unit: P,
        ins: Seq<(String, Sample)>,
        outs: Seq<String>,
    ) -> bool {
        let n = pre.modules().len() as int;
        let m = post.modules()[n].1;
        &&& id == pre.next_id()
        &&& post.next_id() == pre.next_id() + 1
        &&& post.modules().len() == pre.modules().len() + 1
        &&& (forall|i: int| 0 <= i < n ==> post.modules()[i] == pre.modules()[i])
        &&& post.modules()[n].0 == id
        &&& m.proc() == unit
        &&& m.input_ports().len() == ins.len()
        &&& m.output_ports().len() == outs.len()
        &&& (forall|j: int| 0 <= j < ins.len() ==> (#[trigger] m.input_ports()[j]).0 == ins[j].0)
        &&& (forall|j: int| 0 <= j < ins.len()
                ==> post.constants().dom().contains((#[trigger] m.input_ports()[j]).1)
                    && post.constants()[m.input_ports()[j].1] == ins[j].1
                    && !pre.constants().dom().contains(m.input_ports()[j].1))
        &&& (forall|j1: int, j2: int| 0 <= j1 < j2 < ins.len()
                ==> (#[trigger] m.input_ports()[j1]).1 != (#[trigger] m.input_ports()[j2]).1)
        &&& (forall|j1: int, j2: int| 0 <= j1 < j2 < outs.len()
                ==> (#[trigger] m.output_ports()[j1]).1 != (#[trigger] m.output_ports()[j2]).1)
        &&& (forall|j: int| 0 <= j < outs.len() ==> (#[trigger] m.output_ports()[j]).0 == outs[j])
        &&& (forall|j: int| 0 <= j < outs.len()
                ==> post.buffers().dom().contains((#[trigger] m.output_ports()[j]).1)
                    && post.buffers()[m.output_ports()[j].1] == silence(pre.block_len())
                    && !pre.buffers().dom().contains(m.output_ports()[j].1))
        &&& (forall|k: u64| #[trigger] pre.constants().dom().contains(k)
                ==> post.constants().dom().contains(k)
                    && pre.constants()[k] == post.constants()[k])
        &&& (forall|k: u64| #[trigger] pre.buffers().dom().contains(k)
                ==> post.buffers().dom().contains(k)
                    && pre.buffers()[k] == post.buffers()[k])
        &&& post.connections() == pre.connections()
        &&& post.block_len() == pre.block_len()
    }

    /// Register a unit together with the port counts it reported: fails with
    /// a contract mismatch exactly when those counts disagree with the
    /// declared port lists, and otherwise allocates the ports and appends the
    /// module atomically.
    pub fn register_module(
        &mut self,
        unit: P,
        n_in: usize,
        n_out: usize,
        inputs: Vec<(String, Sample)>,
        outputs: Vec<String>,
    ) -> (r: Result<ModuleId, GraphError>)
        requires
            old(self).wf(),
            old(self).allocations().0 + inputs@.len() < 0xffff_fffd,
            old(self).allocations().1 + outputs@.len() < 0xffff_fffd,
            old(self).next_id() < u64::MAX,
        ensures
            final(self).wf(),
            (r is Err) <==> !(n_in == inputs@.len() && n_out == outputs@.len()),
            match r {
                Ok(id) => Self::added_module_post(
                    *old(self), *final(self), id, unit, inputs@, outputs@),
                Err(e) => e == GraphError::ContractMismatch && *final(self) == *old(self),
            },
    {
        if n_in != inputs.len() || n_out != outputs.len() {
            return Err(GraphError::ContractMismatch);
        }
        let ghost pre = *self;
        let ghost ins = inputs@;
        let ghost outs = outputs@;

        let mut in_pairs: Vec<(String, ModuleInputId)> = Vec::new();
        let mut in_rest = inputs;
        while in_rest.len() > 0
            invariant
                self.nodes == pre.nodes,
                self.out_ports == pre.out_ports,
                self.conns == pre.conns,
                self.block_size == pre.block_size,
                self.next_module_id == pre.next_module_id,
                self.out_allocs == pre.out_allocs,
                in_pairs@.len() + in_rest@.len() == ins.len(),
                in_rest@ == ins.subrange(in_pairs@.len() as int, ins.len() as int),
                self.in_allocs as nat == pre.in_allocs as nat + in_pairs@.len(),
                pre.in_allocs as nat + ins.len() < 0xffff_fffd,
                input_ports_inserts(self.in_ports) == self.in_allocs as nat,
                keys_ok(self.constants()),
                forall|k2: u64| #[trigger] pre.constants().dom().contains(k2)
                    ==> self.constants().dom().contains(k2)
                        && pre.constants()[k2] == self.constants()[k2],
                forall|j: int| 0 <= j < in_pairs@.len()
                    ==> (#[trigger] in_pairs@[j]).0 == ins[j].0,
                forall|j: int| 0 <= j < in_pairs@.len()
                    ==> self.constants().dom().contains((#[trigger] in_pairs@[j]).1)
                        && self.constants()[in_pairs@[j].1] == ins[j].1
                        && !pre.constants().dom().contains(in_pairs@[j].1),
                forall|j1: int, j2: int| 0 <= j1 < j2 < in_pairs@.len()
                    ==> (#[trigger] in_pairs@[j1]).1 != (#[trigger] in_pairs@[j2]).1,
                forall|k: u64| #[trigger] self.constants().dom().contains(k)
                    ==> pre.constants().dom().contains(k)
                        || exists|j: int| 0 <= j < in_pairs@.len()
                            && (#[trigger] in_pairs@[j]).1 == k,
            decreases in_rest@.len(),
        {
            let ghost before = self.constants();
            let ghost entry_pairs = in_pairs@;
            let (name, value) = in_rest.remove(0);
            let k = self.in_ports.insert(value);
            self.in_allocs = self.in_allocs + 1;
            in_pairs.push((name, k));
            proof {
                lemma_keys_ok_insert(before, k, value);
                assert forall|k2: u64| #[trigger] pre.constants().dom().contains(k2)
                    implies self.constants().dom().contains(k2)
                        && pre.constants()[k2] == self.constants()[k2] by {
                    assert(before.dom().contains(k2) && pre.constants()[k2] == before[k2]);
                    assert(k2 != k);
                }
                assert forall|k2: u64| self.constants().dom().contains(k2)
                    implies pre.constants().dom().contains(k2)
                        || exists|j: int| 0 <= j < in_pairs@.len()
                            && (#[trigger] in_pairs@[j]).1 == k2 by {
                    if k2 == k {
                        assert(in_pairs@[in_pairs@.len() - 1].1 == k2);
                    } else {
                        assert(before.dom().contains(k2));
                        if !pre.constants().dom().contains(k2) {
                            let j = choose|j: int| 0 <= j < entry_pairs.len()
                                && (#[trigger] entry_pairs[j]).1 == k2;
                            assert(in_pairs@[j].1 == k2);
                        }
                    }
                }
            }
        }

        let ghost mid = *self;
        let mut out_pairs: Vec<(String, ModuleOutputId)> = Vec::new();
        let mut out_rest = outputs;
        while out_rest.len() > 0
            invariant
                self.nodes == pre.nodes,
                self.in_ports == mid.in_ports,
                self.in_allocs == mid.in_allocs,
                self.conns == pre.conns,
                self.block_size == pre.block_size,
                self.next_module_id == pre.next_module_id,
                out_pairs@.len() + out_rest@.len() == outs.len(),
                out_rest@ == outs.subrange(out_pairs@.len() as int, outs.len() as int),
                self.out_allocs as nat == pre.out_allocs as nat + out_pairs@.len(),
                pre.out_allocs as nat + outs.len() < 0xffff_fffd,
                output_ports_inserts(self.out_ports) == self.out_allocs as nat,
                keys_ok(self.buffers()),
                forall|k2: u64| #[trigger] pre.buffers().dom().contains(k2)
                    ==> self.buffers().dom().contains(k2)
                        && pre.buffers()[k2] == self.buffers()[k2],
                forall|j: int| 0 <= j < out_pairs@.len()
                    ==> (#[trigger] out_pairs@[j]).0 == outs[j],
                forall|j: int| 0 <= j < out_pairs@.len()
                    ==> self.buffers().dom().contains((#[trigger] out_pairs@[j]).1)
                        && self.buffers()[out_pairs@[j].1] == silence(pre.block_len())
                        && !pre.buffers().dom().contains(out_pairs@[j].1),
                forall|j1: int, j2: int| 0 <= j1 < j2 < out_pairs@.len()
                    ==> (#[trigger] out_pairs@[j1]).1 != (#[trigger] out_pairs@[j2]).1,
                forall|k: u64| #[trigger] self.buffers().dom().contains(k)
                    ==> pre.buffers().dom().contains(k)
                        || exists|j: int| 0 <= j < out_pairs@.len()
                            && (#[trigger] out_pairs@[j]).1 == k,
            decreases out_rest@.len(),
        {
            let ghost before = self.buffers();
            let ghost entry_pairs = out_pairs@;
            let name = out_rest.remove(0);
            let buf = zero_block(self.block_size);
            let ghost bufview = buf@;
            let k = self.out_ports.insert(buf);
            self.out_allocs = self.out_allocs + 1;
            out_pairs.push((name, k));
            proof {
                lemma_keys_ok_insert(before, k, bufview);
                assert forall|k2: u64| #[trigger] pre.buffers().dom().contains(k2)
                    implies self.buffers().dom().contains(k2)
                        && pre.buffers()[k2] == self.buffers()[k2] by {
                    assert(before.dom().contains(k2) && pre.buffers()[k2] == before[k2]);
                    assert(k2 != k);
                }
                assert forall|k2: u64| self.buffers().dom().contains(k2)
                    implies pre.buffers().dom().contains(k2)
                        || exists|j: int| 0 <= j < out_pairs@.len()
                            && (#[trigger] out_pairs@[j]).1 == k2 by {
                    if k2 == k {
                        assert(out_pairs@[out_pairs@.len() - 1].1 == k2);
                    } else {
                        assert(before.dom().contains(k2));
                        if !pre.buffers().dom().contains(k2) {
                            let j = choose|j: int| 0 <= j < entry_pairs.len()
                                && (#[trigger] entry_pairs[j]).1 == k2;
                            assert(out_pairs@[j].1 == k2);
                        }
                    }
                }
            }
        }

        let id = self.next_module_id;
        self.next_module_id = id + 1;
        let module = Module { processor: unit, inputs: in_pairs, outputs: out_pairs };
        self.nodes.push((id, module));

        proof {
            let post = *self;
            let n = pre.modules().len() as int;
            let m = post.modules()[n].1;
            assert(post.modules() == pre.modules().push(post.modules()[n]));
            assert(m.input_ports().len() == ins.len());

            assert forall|i: int| 0 <= i < post.modules().len() implies {
                let mm = (#[trigger] post.modules()[i]).1;
                &&& forall|j: int| 0 <= j < mm.input_ports().len()
                        ==> post.constants().dom().contains((#[trigger] mm.input_ports()[j]).1)
                &&& forall|j: int| 0 <= j < mm.output_ports().len()
                        ==> post.buffers().dom().contains((#[trigger] mm.output_ports()[j]).1)
            } by {
                let mm = post.modules()[i].1;
                if i < n {
                    assert(pre.modules()[i].1 == mm);
                    assert forall|j: int| 0 <= j < mm.input_ports().len()
                        implies post.constants().dom().contains(
                            (#[trigger] mm.input_ports()[j]).1) by {
                        assert(pre.constants().dom().contains(mm.input_ports()[j].1));
                    }
                    assert forall|j: int| 0 <= j < mm.output_ports().len()
                        implies post.buffers().dom().contains(
                            (#[trigger] mm.output_ports()[j]).1) by {
                        assert(pre.buffers().dom().contains(mm.output_ports()[j].1));
                    }
                }
            }

            assert forall|a: int, x: int, b: int, y: int|
                0 <= a < post.modules().len() && 0 <= x < post.modules()[a].1.input_ports().len()
                && 0 <= b < post.modules().len() && 0 <= y < post.modules()[b].1.input_ports().len()
                && (a != b || x != y)
                implies (#[trigger] post.modules()[a].1.input_ports()[x]).1
                    != (#[trigger] post.modules()[b].1.input_ports()[y]).1 by {
                if a < n && b < n {
                    assert(pre.modules()[a].1.input_ports()[x].1
                        != pre.modules()[b].1.input_ports()[y].1);
                } else if a < n && b == n {
                    assert(pre.constants().dom().contains(pre.modules()[a].1.input_ports()[x].1));
                } else if a == n && b < n {
                    assert(pre.constants().dom().contains(pre.modules()[b].1.input_ports()[y].1));
                }
            }

            assert forall|a: int, x: int, b: int, y: int|
                0 <= a < post.modules().len() && 0 <= x < post.modules()[a].1.output_ports().len()
                && 0 <= b < post.modules().len() && 0 <= y < post.modules()[b].1.output_ports().len()
                && (a != b || x != y)
                implies (#[trigger] post.modules()[a].1.output_ports()[x]).1
                    != (#[trigger] post.modules()[b].1.output_ports()[y]).1 by {
                if a < n && b < n {
                    assert(pre.modules()[a].1.output_ports()[x].1
                        != pre.modules()[b].1.output_ports()[y].1);
                } else if a < n && b == n {
                    assert(pre.buffers().dom().contains(pre.modules()[a].1.output_ports()[x].1));
                } else if a == n && b < n {
                    assert(pre.buffers().dom().contains(pre.modules()[b].1.output_ports()[y].1));
                }
            }

            assert(post.connections() == pre.connections());
            assert forall|k: u64| #[trigger] post.connections().dom().contains(k)
                implies post.constants().dom().contains(k)
                    && post.buffers().dom().contains(post.connections()[k]) by {
                assert(pre.connections().dom().contains(k));
                assert(pre.constants().dom().contains(k));
                assert(pre.buffers().dom().contains(pre.connections()[k]));
            }

            assert forall|k: u64| #[trigger] post.buffers().dom().contains(k)
                implies post.buffers()[k].len() == post.block_len() by {
                if pre.buffers().dom().contains(k) {
                    assert(post.buffers()[k] == pre.buffers()[k]);
                }
            }
        }
        Ok(id)
    }
}

impl<P: AudioProcessor> Graph<P> {
    /// Add a module to the graph in one atomic step: take ownership of the
    /// unit, allocate one input port per declared (name, constant) pair and
    /// one silence-seeded output port per declared name, and register the
    /// module at the end of the execution order. Fails with a contract
    /// mismatch — leaving the graph untouched — when the unit's reported
    /// port counts disagree with the declared lists.
    pub fn add_module(
        &mut self,
        unit: P,
        inputs: Vec<(String, Sample)>,
        outputs: Vec<String>,
    ) -> (r: Result<ModuleId, GraphError>)
        requires
            old(self).wf(),
            old(self).allocations().0 + inputs@.len() < 0xffff_fffd,
            old(self).allocations().1 + outputs@.len() < 0xffff_fffd,
            old(self).next_id() < u64::MAX,
        ensures
            final(self).wf(),
            match r {
                Ok(id) => Self::added_module_post(
                    *old(self), *final(self), id, unit, inputs@, outputs@),
                Err(e) => e == GraphError::ContractMismatch && *final(self) == *old(self),
            },
    {
        let n_in = unit.n_inputs();
        let n_out = unit.n_outputs();
        self.register_module(unit, n_in, n_out, inputs, outputs)
    }

    /// Execute one block: for every module in insertion order, resolve each
    /// declared input — the feeding output port's current block when
    /// connected (an output written earlier in this same pass is seen; one
    /// written later is read as the previous block), otherwise the input
    /// port's constant broadcast across the block — run the unit over fresh
    /// zero-initialized output buffers, and copy the produced buffers back
    /// into the module's output ports. A unit that hands back the wrong
    /// number of buffers, or a buffer of the wrong length, has that block
    /// discarded: its output ports keep their previous contents.
    ///
    /// The graph's structure — handles, constants, connections, module order
    /// — is untouched; only output-port contents and unit states change.
    pub fn process(&mut self, sample_rate: Sample)
        requires
            old(self).wf(),
        ensures
            final(self).wf(),
            final(self).constants() == old(self).constants(),
            final(self).connections() == old(self).connections(),
            final(self).buffers().dom() == old(self).buffers().dom(),
            final(self).block_len() == old(self).block_len(),
            final(self).next_id() == old(self).next_id(),
            final(self).modules().len() == old(self).modules().len(),
            forall|i: int| 0 <= i < final(self).modules().len()
                ==> (#[trigger] final(self).modules()[i]).0 == old(self).modules()[i].0
                    && final(self).modules()[i].1.input_ports()
                        == old(self).modules()[i].1.input_ports()
                    && final(self).modules()[i].1.output_ports()
                        == old(self).modules()[i].1.output_ports(),
            forall|k: u64| #[trigger] final(self).buffers().dom().contains(k)
                && !old(self).declares_output(k)
                ==> final(self).buffers()[k] == old(self).buffers()[k],
            forall|k: u64| #[trigger] final(self).buffers().dom().contains(k)
                ==> final(self).buffers()[k].len() == old(self).block_len(),
    {
        let ghost pre = *self;
        let n = self.nodes.len();
        let mut idx: usize = 0;
        while idx < n
            invariant
                self.wf(),
                idx <= n,
                n == self.nodes@.len(),
                self.in_ports == pre.in_ports,
                self.conns == pre.conns,
                self.buffers().dom() == pre.buffers().dom(),
                self.block_size == pre.block_size,
                self.next_module_id == pre.next_module_id,
                self.in_allocs == pre.in_allocs,
                self.out_allocs == pre.out_allocs,
                self.modules().len() == pre.modules().len(),
                forall|i: int| 0 <= i < self.modules().len()
                    ==> (#[trigger] self.modules()[i]).0 == pre.modules()[i].0
                        && self.modules()[i].1.input_ports()
                            == pre.modules()[i].1.input_ports()
                        && self.modules()[i].1.output_ports()
                            == pre.modules()[i].1.output_ports(),
                forall|k: u64| #[trigger] self.buffers().dom().contains(k)
                    && !pre.declares_output(k)
                    ==> self.buffers()[k] == pre.buffers()[k],
            decreases n - idx,
        {
            let ghost head = *self;
            let mut entry = self.nodes.remove(idx);
            let ghost entry_id = entry.0;
            let ghost in_list = entry.1.input_ports();
            let ghost out_list = entry.1.output_ports();
            proof {
                assert(head.modules()[idx as int] == (entry_id, entry.1));
                assert(self.arenas_wf());
                assert(self.connections() == head.connections());
                assert(self.constants() == head.constants());
                assert(self.buffers() == head.buffers());
                assert forall|k: u64| #[trigger] self.connections().dom().contains(k)
                    implies self.constants().dom().contains(k)
                        && self.buffers().dom().contains(self.connections()[k]) by {
                    assert(head.connections().dom().contains(k));
                    assert(head.constants().dom().contains(k));
                    assert(head.buffers().dom().contains(head.connections()[k]));
                }
                assert(self.connections_wf());
                assert forall|k: u64| #[trigger] self.buffers().dom().contains(k)
                    implies self.buffers()[k].len() == self.block_len() by {
                    assert(head.buffers().dom().contains(k));
                }
                assert(self.buffers_sized());
            }

            let n_in = entry.1.inputs.len();
            let mut input_blocks: Vec<Vec<Sample>> = Vec::new();
            let mut j: usize = 0;
            while j < n_in
                invariant
                    j <= n_in,
                    input_blocks@.len() == j,
                    n_in == in_list.len(),
                    entry.1.input_ports() == in_list,
                    self.arenas_wf(),
                    self.connections_wf(),
                    self.buffers_sized(),
                    forall|x: int| 0 <= x < in_list.len()
                        ==> self.constants().dom().contains((#[trigger] in_list[x]).1),
                decreases n_in - j,
            {
                let ik = entry.1.inputs[j].1;
                let block = match self.resolve_port(ik) {
                    Ok(b) => b,
                    Err(_) => {
                        proof {
                            assert(false);
                        }
                        Vec::new()
                    }
                };
                input_blocks.push(block);
                j = j + 1;
            }

            let n_out = entry.1.outputs.len();
            let mut out_blocks: Vec<Vec<Sample>> = Vec::new();
            let mut j2: usize = 0;
            while j2 < n_out
                invariant
                    j2 <= n_out,
                    out_blocks@.len() == j2,
                decreases n_out - j2,
            {
                out_blocks.push(zero_block(self.block_size));
                j2 = j2 + 1;
            }

            entry.1.processor.process(&input_blocks, &mut out_blocks, sample_rate);

            proof {
                assert(self.buffers() == head.buffers());
                assert(entry.1.output_ports() == out_list);
                assert forall|x: int| 0 <= x < entry.1.outputs@.len()
                    implies self.buffers().dom().contains(
                        (#[trigger] entry.1.outputs@[x]).1) by {
                    assert(head.buffers().dom().contains(out_list[x].1));
                }
                assert forall|x1: int, x2: int| 0 <= x1 < x2 < entry.1.outputs@.len()
                    implies (#[trigger] entry.1.outputs@[x1]).1
                        != (#[trigger] entry.1.outputs@[x2]).1 by {
                    assert(head.modules()[idx as int].1.output_ports()[x1].1
                        != head.modules()[idx as int].1.output_ports()[x2].1);
                }
                assert(keys_ok(self.buffers()));
            }
            let ghost prod = out_blocks@;
            self.commit_block(&entry.1.outputs, out_blocks);
            proof {
                let shaped = prod.len() == out_list.len()
                    && (forall|x: int| 0 <= x < prod.len()
                            ==> (#[trigger] prod[x]).len() == head.block_len());
                assert forall|k: u64| #[trigger] self.buffers().dom().contains(k)
                    implies self.buffers()[k].len() == self.block_len() by {
                    assert(head.buffers().dom().contains(k));
                    if shaped {
                        if exists|x: int| 0 <= x < out_list.len()
                            && (#[trigger] out_list[x]).1 == k {
                            let x = choose|x: int| 0 <= x < out_list.len()
                                && (#[trigger] out_list[x]).1 == k;
                            assert(self.buffers()[k] == prod[x]@);
                        } else {
                            assert(self.buffers()[k] == head.buffers()[k]);
                        }
                    } else {
                        assert(self.buffers()[k] == head.buffers()[k]);
                    }
                }
                assert forall|k: u64| #[trigger] self.buffers().dom().contains(k)
                    && !pre.declares_output(k)
                    implies self.buffers()[k] == pre.buffers()[k] by {
                    assert(head.buffers().dom().contains(k));
                    if exists|x: int| 0 <= x < out_list.len()
                        && (#[trigger] out_list[x]).1 == k {
                        let x = choose|x: int| 0 <= x < out_list.len()
                            && (#[trigger] out_list[x]).1 == k;
                        assert((#[trigger] pre.modules()[idx as int]).1.output_ports()[x].1
                            == k);
                        assert(Self::module_has_output_key(pre.modules()[idx as int].1, k));
                        assert(false);
                    } else {
                        assert(self.buffers()[k] == head.buffers()[k]);
                        assert(head.buffers()[k] == pre.buffers()[k]);
                    }
                }
            }

            self.nodes.insert(idx, entry);
            proof {
                assert(self.nodes@ =~= head.nodes@.update(
                    idx as int, (entry_id, self.nodes@[idx as int].1)));
                assert forall|i: int| 0 <= i < self.modules().len()
                    implies (#[trigger] self.modules()[i]).0 == head.modules()[i].0
                        && self.modules()[i].1.input_ports()
                            == head.modules()[i].1.input_ports()
                        && self.modules()[i].1.output_ports()
                            == head.modules()[i].1.output_ports() by {
                    if i == idx as int {
                        assert(self.modules()[i].1.input_ports() == in_list);
                        assert(self.modules()[i].1.output_ports() == out_list);
                    }
                }
                assert forall|k: u64| #[trigger] self.buffers().dom().contains(k)
                    implies self.buffers()[k].len() == self.block_len() by {
                    if !head.buffers().dom().contains(k) {
                        assert(false);
                    }
                }
                Self::lemma_wf_same_shape(head, *self);
            }
            idx = idx + 1;
        }
        proof {
            assert forall|k: u64| #[trigger] self.buffers().dom().contains(k)
                implies self.buffers()[k].len() == self.block_len() by {
            }
        }
    }
}

} // verus!
