use signal_graph::audio_processor::AudioProcessor;
use signal_graph::graph::{Graph, GraphError};

/// Example processing units, mirroring what a host would register: samples
/// are f32 bit patterns carried in the engine's opaque 32-bit words.
enum TestUnit {
    /// Averages its two inputs: out[i] = (a[i] + b[i]) / 2.
    Mixer,
    /// A sine oscillator with an internal phase accumulator; its one input
    /// is the frequency.
    Osc { phase: f32 },
    /// Writes the same value into every output sample.
    Fill { value: f32 },
    /// Misbehaves: hands back a buffer of the wrong length.
    Bad,
}

impl AudioProcessor for TestUnit {
    fn n_inputs(&self) -> usize {
        match self {
            TestUnit::Mixer => 2,
            TestUnit::Osc { .. } => 1,
            TestUnit::Fill { .. } => 0,
            TestUnit::Bad => 0,
        }
    }

    fn n_outputs(&self) -> usize {
        1
    }

    fn input_name(&self, idx: usize) -> String {
        match self {
            TestUnit::Mixer => {
                if idx == 0 {
                    "a".to_string()
                } else {
                    "b".to_string()
                }
            }
            _ => "fq".to_string(),
        }
    }

    fn output_name(&self, _idx: usize) -> String {
        "out".to_string()
    }

    fn process(&mut self, inputs: &Vec<Vec<u32>>, outputs: &mut Vec<Vec<u32>>, sample_rate: u32) {
        match self {
            TestUnit::Mixer => {
                for i in 0..outputs[0].len() {
                    let a = f32::from_bits(inputs[0][i]);
                    let b = f32::from_bits(inputs[1][i]);
                    outputs[0][i] = ((a + b) / 2.0).to_bits();
                }
            }
            TestUnit::Osc { phase } => {
                let sr = f32::from_bits(sample_rate);
                for i in 0..outputs[0].len() {
                    outputs[0][i] = (*phase * std::f32::consts::TAU).sin().to_bits();
                    *phase = (*phase + f32::from_bits(inputs[0][i]) / sr).fract();
                }
            }
            TestUnit::Fill { value } => {
                for i in 0..outputs[0].len() {
                    outputs[0][i] = value.to_bits();
                }
            }
            TestUnit::Bad => {
                outputs[0] = vec![0.5f32.to_bits(); 3];
            }
        }
    }
}

/// What the Osc unit produces over one block, computed independently.
fn osc_expected(freq: f32, sr: f32, n: usize, phase: &mut f32) -> Vec<f32> {
    let mut out = Vec::new();
    for _ in 0..n {
        out.push((*phase * std::f32::consts::TAU).sin());
        *phase = (*phase + freq / sr).fract();
    }
    out
}

#[test]
fn round_trip_ports() {
    let mut g: Graph<TestUnit> = Graph::new(8);
    let id = g
        .add_module(
            TestUnit::Mixer,
            vec![("a".to_string(), 0.0f32.to_bits()), ("b".to_string(), 0.0f32.to_bits())],
            vec!["out".to_string()],
        )
        .unwrap();
    let m = g.module(id).expect("module must be registered");
    assert_eq!(m.inputs().len(), 2);
    assert_eq!(m.outputs().len(), 1);
    // By index.
    let a = m.input_id(0).unwrap();
    let b = m.input_id(1).unwrap();
    let out = m.output_id(0).unwrap();
    assert!(a != b);
    assert!(m.input_id(2).is_none());
    assert!(m.output_id(1).is_none());
    // By name.
    let by_name_a = m.inputs().iter().find(|p| p.0 == "a").unwrap().1;
    let by_name_b = m.inputs().iter().find(|p| p.0 == "b").unwrap().1;
    assert_eq!(by_name_a, a);
    assert_eq!(by_name_b, b);
    assert_eq!(m.outputs()[0].0, "out");
    assert_eq!(m.outputs()[0].1, out);
    // Reported counts match the registered ports.
    assert_eq!(m.processor().n_inputs(), m.inputs().len());
    assert_eq!(m.processor().n_outputs(), m.outputs().len());
}

#[test]
fn fresh_outputs_are_silent() {
    let mut g: Graph<TestUnit> = Graph::new(16);
    let id = g
        .add_module(TestUnit::Osc { phase: 0.25 }, vec![("fq".to_string(), 440.0f32.to_bits())], vec![
            "out".to_string(),
        ])
        .unwrap();
    let out = g.module(id).unwrap().output_id(0).unwrap();
    let buf = g.output_buffer(out).unwrap();
    assert_eq!(buf.len(), 16);
    for w in buf {
        assert_eq!(f32::from_bits(w), 0.0);
    }
}

#[test]
fn unconnected_input_broadcasts_constant() {
    let mut g: Graph<TestUnit> = Graph::new(32);
    let id = g
        .add_module(TestUnit::Osc { phase: 0.0 }, vec![("fq".to_string(), 440.0f32.to_bits())], vec![
            "out".to_string(),
        ])
        .unwrap();
    let fq = g.module(id).unwrap().input_id(0).unwrap();
    let buf = g.resolve_input(fq).unwrap();
    assert_eq!(buf.len(), 32);
    for w in buf {
        assert_eq!(f32::from_bits(w), 440.0);
    }
}

#[test]
fn connected_input_reads_source_buffer() {
    let mut g: Graph<TestUnit> = Graph::new(8);
    let src = g
        .add_module(TestUnit::Fill { value: 3.5 }, vec![], vec!["out".to_string()])
        .unwrap();
    let snk = g
        .add_module(
            TestUnit::Mixer,
            vec![("a".to_string(), 0.0f32.to_bits()), ("b".to_string(), 0.0f32.to_bits())],
            vec!["out".to_string()],
        )
        .unwrap();
    let src_out = g.module(src).unwrap().output_id(0).unwrap();
    let snk_a = g.module(snk).unwrap().input_id(0).unwrap();
    g.connect(snk_a, src_out).unwrap();
    g.process(48000.0f32.to_bits());
    let resolved = g.resolve_input(snk_a).unwrap();
    let stored = g.output_buffer(src_out).unwrap();
    assert_eq!(resolved, stored);
    for w in resolved {
        assert_eq!(f32::from_bits(w), 3.5);
    }
}

#[test]
fn mixer_of_two_oscillators() {
    let n: usize = 64;
    let sr = 2000.0f32;
    let mut g: Graph<TestUnit> = Graph::new(n);
    let osc1 = g
        .add_module(TestUnit::Osc { phase: 0.0 }, vec![("fq".to_string(), 440.0f32.to_bits())], vec![
            "out".to_string(),
        ])
        .unwrap();
    let osc2 = g
        .add_module(TestUnit::Osc { phase: 0.0 }, vec![("fq".to_string(), 880.0f32.to_bits())], vec![
            "out".to_string(),
        ])
        .unwrap();
    let mixer = g
        .add_module(
            TestUnit::Mixer,
            vec![("a".to_string(), 0.0f32.to_bits()), ("b".to_string(), 0.0f32.to_bits())],
            vec!["out".to_string()],
        )
        .unwrap();
    let o1 = g.module(osc1).unwrap().output_id(0).unwrap();
    let o2 = g.module(osc2).unwrap().output_id(0).unwrap();
    let a = g.module(mixer).unwrap().input_id(0).unwrap();
    let b = g.module(mixer).unwrap().input_id(1).unwrap();
    let mix_out = g.module(mixer).unwrap().output_id(0).unwrap();
    g.connect(a, o1).unwrap();
    g.connect(b, o2).unwrap();

    let mut phase1 = 0.0f32;
    let mut phase2 = 0.0f32;
    for _block in 0..3 {
        g.process(sr.to_bits());
        let e1 = osc_expected(440.0, sr, n, &mut phase1);
        let e2 = osc_expected(880.0, sr, n, &mut phase2);
        let out1 = g.output_buffer(o1).unwrap();
        let out2 = g.output_buffer(o2).unwrap();
        let mixed = g.output_buffer(mix_out).unwrap();
        for i in 0..n {
            assert_eq!(f32::from_bits(out1[i]), e1[i]);
            assert_eq!(f32::from_bits(out2[i]), e2[i]);
            let want = (f32::from_bits(out1[i]) + f32::from_bits(out2[i])) / 2.0;
            assert_eq!(f32::from_bits(mixed[i]), want);
        }
    }
}

#[test]
fn removed_module_handles_fail_explicitly() {
    let mut g: Graph<TestUnit> = Graph::new(8);
    let osc = g
        .add_module(TestUnit::Osc { phase: 0.0 }, vec![("fq".to_string(), 440.0f32.to_bits())], vec![
            "out".to_string(),
        ])
        .unwrap();
    let mixer = g
        .add_module(
            TestUnit::Mixer,
            vec![("a".to_string(), 1.5f32.to_bits()), ("b".to_string(), 0.0f32.to_bits())],
            vec!["out".to_string()],
        )
        .unwrap();
    let osc_fq = g.module(osc).unwrap().input_id(0).unwrap();
    let osc_out = g.module(osc).unwrap().output_id(0).unwrap();
    let mix_a = g.module(mixer).unwrap().input_id(0).unwrap();
    g.connect(mix_a, osc_out).unwrap();

    assert_eq!(g.remove_module(osc), Ok(()));
    assert!(g.module(osc).is_none());
    assert_eq!(g.module_count(), 1);

    // Former handles are detectably stale, never silently substituted.
    assert_eq!(g.output_buffer(osc_out), Err(GraphError::InvalidHandle));
    assert_eq!(g.resolve_input(osc_fq), Err(GraphError::InvalidHandle));
    assert_eq!(g.constant(osc_fq), Err(GraphError::InvalidHandle));
    assert_eq!(g.connect(mix_a, osc_out), Err(GraphError::InvalidHandle));
    assert_eq!(g.remove_module(osc), Err(GraphError::InvalidHandle));

    // The dangling connection was purged: the input falls back to its
    // constant instead of reading freed storage.
    let resolved = g.resolve_input(mix_a).unwrap();
    assert_eq!(resolved.len(), 8);
    for w in resolved {
        assert_eq!(f32::from_bits(w), 1.5);
    }
}

#[test]
fn parameter_mutation_between_blocks() {
    let mut g: Graph<TestUnit> = Graph::new(4);
    let osc = g
        .add_module(TestUnit::Osc { phase: 0.0 }, vec![("fq".to_string(), 440.0f32.to_bits())], vec![
            "out".to_string(),
        ])
        .unwrap();
    let fq = g.module(osc).unwrap().input_id(0).unwrap();

    g.process(2000.0f32.to_bits());
    let first = g.resolve_input(fq).unwrap();
    for w in first {
        assert_eq!(f32::from_bits(w), 440.0);
    }

    g.set_constant(fq, 880.0f32.to_bits()).unwrap();
    assert_eq!(g.constant(fq), Ok(880.0f32.to_bits()));

    g.process(2000.0f32.to_bits());
    let second = g.resolve_input(fq).unwrap();
    for w in second {
        assert_eq!(f32::from_bits(w), 880.0);
    }
}

#[test]
fn contract_mismatch_fails_construction() {
    let mut g: Graph<TestUnit> = Graph::new(8);
    // The mixer reports two inputs; declaring one is a contract violation.
    let r = g.add_module(TestUnit::Mixer, vec![("a".to_string(), 0.0f32.to_bits())], vec![
        "out".to_string(),
    ]);
    assert_eq!(r, Err(GraphError::ContractMismatch));
    assert_eq!(g.module_count(), 0);

    let r2 = g.register_module(TestUnit::Mixer, 2, 1, vec![("a".to_string(), 0)], vec![
        "out".to_string(),
    ]);
    assert_eq!(r2, Err(GraphError::ContractMismatch));
}

#[test]
fn reconnect_overwrites_previous_connection() {
    let mut g: Graph<TestUnit> = Graph::new(8);
    let f1 = g
        .add_module(TestUnit::Fill { value: 1.0 }, vec![], vec!["out".to_string()])
        .unwrap();
    let f2 = g
        .add_module(TestUnit::Fill { value: 2.0 }, vec![], vec!["out".to_string()])
        .unwrap();
    let mixer = g
        .add_module(
            TestUnit::Mixer,
            vec![("a".to_string(), 0.0f32.to_bits()), ("b".to_string(), 0.0f32.to_bits())],
            vec!["out".to_string()],
        )
        .unwrap();
    let o1 = g.module(f1).unwrap().output_id(0).unwrap();
    let o2 = g.module(f2).unwrap().output_id(0).unwrap();
    let a = g.module(mixer).unwrap().input_id(0).unwrap();
    g.process(1000.0f32.to_bits());

    g.connect(a, o1).unwrap();
    for w in g.resolve_input(a).unwrap() {
        assert_eq!(f32::from_bits(w), 1.0);
    }
    g.connect(a, o2).unwrap();
    for w in g.resolve_input(a).unwrap() {
        assert_eq!(f32::from_bits(w), 2.0);
    }
}

#[test]
fn ill_shaped_unit_block_is_discarded() {
    let mut g: Graph<TestUnit> = Graph::new(8);
    let bad = g.add_module(TestUnit::Bad, vec![], vec!["out".to_string()]).unwrap();
    let out = g.module(bad).unwrap().output_id(0).unwrap();
    g.process(1000.0f32.to_bits());
    // The unit produced 3 samples instead of 8: the block is dropped and the
    // port keeps its previous (silent) contents.
    let buf = g.output_buffer(out).unwrap();
    assert_eq!(buf.len(), 8);
    for w in buf {
        assert_eq!(f32::from_bits(w), 0.0);
    }
}

#[test]
fn foreign_handles_are_rejected() {
    let mut g: Graph<TestUnit> = Graph::new(8);
    let id = g
        .add_module(TestUnit::Fill { value: 1.0 }, vec![], vec!["out".to_string()])
        .unwrap();
    let out = g.module(id).unwrap().output_id(0).unwrap();
    assert_eq!(g.resolve_input(12345), Err(GraphError::InvalidHandle));
    assert_eq!(g.set_constant(0, 1.0f32.to_bits()), Err(GraphError::InvalidHandle));
    assert_eq!(g.constant(u64::MAX), Err(GraphError::InvalidHandle));
    assert_eq!(g.connect(12345, out), Err(GraphError::InvalidHandle));
    assert_eq!(g.remove_module(99), Err(GraphError::InvalidHandle));
}

#[test]
fn swap_processor_is_the_host_parameter_path() {
    let mut g: Graph<TestUnit> = Graph::new(8);
    let id = g
        .add_module(TestUnit::Fill { value: 1.0 }, vec![], vec!["out".to_string()])
        .unwrap();
    let out = g.module(id).unwrap().output_id(0).unwrap();
    g.process(1000.0f32.to_bits());
    for w in g.output_buffer(out).unwrap() {
        assert_eq!(f32::from_bits(w), 1.0);
    }

    // Pull the unit out, adjust its parameter, put it back.
    let mut unit = TestUnit::Mixer;
    g.swap_processor(id, &mut unit).unwrap();
    assert!(matches!(unit, TestUnit::Fill { .. }));
    if let TestUnit::Fill { value } = &mut unit {
        *value = 2.0;
    }
    g.swap_processor(id, &mut unit).unwrap();
    assert!(matches!(unit, TestUnit::Mixer));

    // The ports kept their identity; the next block reflects the new value.
    assert_eq!(g.module(id).unwrap().output_id(0).unwrap(), out);
    g.process(1000.0f32.to_bits());
    for w in g.output_buffer(out).unwrap() {
        assert_eq!(f32::from_bits(w), 2.0);
    }

    // A stale module handle is rejected and the unit is left alone.
    let mut spare = TestUnit::Bad;
    assert_eq!(g.swap_processor(77, &mut spare), Err(GraphError::InvalidHandle));
    assert!(matches!(spare, TestUnit::Bad));
}

#[test]
fn block_size_is_fixed_at_construction() {
    let g: Graph<TestUnit> = Graph::new(128);
    assert_eq!(g.block_size(), 128);
    assert_eq!(g.module_count(), 0);
}
