use dsphost::dspapi::{Command, StatState};
use dsphost::dspengine::{Applied, AudioNode, DspEngine, NodeFactory, DSPENGINE_VERSION};
use dsphost::{Sample, SILENCE};

struct Recorder {
    id: u32,
    params: Vec<(u32, Vec<u8>)>,
    gain: f32,
}

impl AudioNode for Recorder {
    fn process(&mut self, buffer: &mut Vec<Sample>) {
        for s in buffer.iter_mut() {
            *s = (f32::from_bits(*s) * self.gain).to_bits();
        }
    }

    fn set_param(&mut self, param_id: u32, payload: &[u8]) {
        if payload.len() == 4 {
            self.gain = f32::from_le_bytes([payload[0], payload[1], payload[2], payload[3]]);
        }
        self.params.push((param_id, payload.to_vec()));
    }

    fn get_id(&self) -> u32 {
        self.id
    }

    fn get_name(&self) -> &str {
        "recorder"
    }
}

struct Maker {
    next: u32,
}

impl NodeFactory<Recorder> for Maker {
    fn create_node(&mut self, name: &str) -> Option<Recorder> {
        if name == "rec" {
            self.next += 1;
            Some(Recorder { id: self.next, params: Vec::new(), gain: 1.0 })
        } else {
            None
        }
    }
}

fn engine(size: usize) -> DspEngine<Recorder> {
    DspEngine::new(1, "test host", 44100, size)
}

fn bits(v: &[f32]) -> Vec<Sample> {
    v.iter().map(|x| x.to_bits()).collect()
}

fn set_param(node: u32, param: u32, value: f32) -> Command {
    Command::new(2, "set", value.to_le_bytes().to_vec(), node, param, 0, StatState::ACTIVE)
}

fn add(name: &'static str) -> Command {
    Command::new(0, name, Vec::new(), 0, 0, 0, StatState::ACTIVE)
}

#[test]
fn new_engine_is_stopped_and_empty() {
    let e = engine(1024);
    assert!(!e.is_running);
    assert_eq!(e.engine_id, 1);
    assert_eq!(e.sample_rate, 44100);
    assert_eq!(e.buffer_size, 1024);
    assert_eq!(e.buffer.capacity(), 1024);
    assert!(e.nodes.is_empty());
    assert_eq!(DSPENGINE_VERSION, "0.1.0");
}

#[test]
fn start_and_stop() {
    let mut e = engine(16);
    assert_eq!(e.start(Err("No output device found".to_string())), Err("No output device found".to_string()));
    assert!(!e.is_running);
    assert_eq!(e.start(Ok(())), Ok(()));
    assert!(e.is_running);
    assert_eq!(e.start(Err("ignored".to_string())), Ok(()));
    assert!(e.is_running);
    e.stop();
    assert!(!e.is_running);
    e.stop();
    assert!(!e.is_running);
}

#[test]
fn stop_keeps_rack_and_ring() {
    let mut e = engine(16);
    let mut f = Maker { next: 0 };
    let mut q = vec![add("rec")];
    e.drain_and_apply(&mut q, true, &mut f);
    assert_eq!(e.push_samples(&[1, 2, 3]), 3);
    e.start(Ok(())).unwrap();
    e.stop();
    assert_eq!(e.nodes.len(), 1);
    assert_eq!(e.buffer.read_slice(), &[1, 2, 3]);
}

#[test]
fn push_samples_all_or_nothing() {
    let mut e = engine(8);
    assert_eq!(e.push_samples(&[1, 2, 3, 4, 5]), 5);
    assert_eq!(e.push_samples(&[6, 7, 8, 9]), 0);
    assert_eq!(e.push_samples(&[6, 7, 8]), 3);
    assert_eq!(e.push_samples(&[]), 0);
    assert_eq!(e.buffer.read_slice(), &[1, 2, 3, 4, 5, 6, 7, 8]);
}

#[test]
fn underflow_is_zero_filled() {
    let mut e = engine(16);
    let input = bits(&[0.25, -0.5, 0.75]);
    assert_eq!(e.push_samples(&input), 3);
    let mut out: Vec<Sample> = vec![0xdead_beef; 8];
    e.pull_samples(&mut out);
    let mut expected = input.clone();
    expected.extend(vec![SILENCE; 5]);
    assert_eq!(out, expected);
    assert_eq!(f32::from_bits(out[7]), 0.0);
    assert_eq!(e.buffer.read_index(), 3);
    assert_eq!(e.buffer.available(), 0);
}

#[test]
fn pull_takes_only_what_fits() {
    let mut e = engine(16);
    assert_eq!(e.push_samples(&[1, 2, 3, 4, 5, 6]), 6);
    let mut out: Vec<Sample> = vec![0; 4];
    e.pull_samples(&mut out);
    assert_eq!(out, vec![1, 2, 3, 4]);
    assert_eq!(e.buffer.read_slice(), &[5, 6]);
}

#[test]
fn commands_apply_in_order_sent() {
    let mut e = engine(16);
    let mut f = Maker { next: 0 };
    let mut q: Vec<Command> = Vec::new();
    add("rec").send(&mut q);
    set_param(1, 10, 0.5).send(&mut q);
    set_param(1, 11, 2.0).send(&mut q);
    let log = e.drain_and_apply(&mut q, true, &mut f);
    assert!(q.is_empty());
    assert_eq!(log, vec![Applied::Attached(1), Applied::ParamForwarded(0), Applied::ParamForwarded(0)]);
    let node = &e.nodes[0].node;
    let ids: Vec<u32> = node.params.iter().map(|p| p.0).collect();
    assert_eq!(ids, vec![10, 11]);
    assert_eq!(node.gain, 2.0);
}

#[test]
fn set_param_before_add_finds_no_target() {
    let mut e = engine(16);
    let mut f = Maker { next: 0 };
    let mut q = vec![set_param(1, 10, 0.5), add("rec")];
    let log = e.drain_and_apply(&mut q, true, &mut f);
    assert_eq!(log, vec![Applied::NoTarget, Applied::Attached(1)]);
    assert!(e.nodes[0].node.params.is_empty());
}

#[test]
fn unknown_node_and_reserved_opcodes() {
    let mut e = engine(16);
    let mut f = Maker { next: 0 };
    let mut q = vec![
        add("missing"),
        Command::new(1, "remove", Vec::new(), 1, 0, 0, StatState::ACTIVE),
        Command::new(3, "route", Vec::new(), 1, 0, 2, StatState::ACTIVE),
        Command::new(9, "other", Vec::new(), 1, 0, 0, StatState::ACTIVE),
        set_param(42, 0, 1.0),
    ];
    let log = e.drain_and_apply(&mut q, true, &mut f);
    assert_eq!(
        log,
        vec![Applied::Unavailable, Applied::Unhandled(1), Applied::Unhandled(3), Applied::Unhandled(9), Applied::NoTarget]
    );
    assert!(e.nodes.is_empty());
}

#[test]
fn set_param_goes_to_first_matching_node() {
    let mut e = engine(16);
    let mut f = Maker { next: 0 };
    let mut q = vec![add("rec"), add("rec"), set_param(2, 5, 3.0)];
    let log = e.drain_and_apply(&mut q, true, &mut f);
    assert_eq!(log[2], Applied::ParamForwarded(1));
    assert!(e.nodes[0].node.params.is_empty());
    assert_eq!(e.nodes[1].node.params.len(), 1);
}

#[test]
fn contended_cycles_defer_without_loss() {
    let mut e = engine(16);
    let mut f = Maker { next: 0 };
    let mut q: Vec<Command> = Vec::new();
    add("rec").send(&mut q);
    for cycle in 0..3u32 {
        set_param(1, cycle, 1.0).send(&mut q);
        let mut out: Vec<Sample> = vec![0; 4];
        let log = e.process_cycle(&mut out, &mut q, false, &mut f);
        assert!(log.is_empty());
        assert!(e.nodes.is_empty());
    }
    assert_eq!(q.len(), 4);
    let mut out: Vec<Sample> = vec![0; 4];
    let log = e.process_cycle(&mut out, &mut q, true, &mut f);
    assert!(q.is_empty());
    assert_eq!(log.len(), 4);
    let ids: Vec<u32> = e.nodes[0].node.params.iter().map(|p| p.0).collect();
    assert_eq!(ids, vec![0, 1, 2]);
}

#[test]
fn rack_runs_in_order_over_output() {
    let mut e = engine(16);
    let mut f = Maker { next: 0 };
    let mut q = vec![add("rec"), add("rec"), set_param(1, 0, 0.5), set_param(2, 0, 4.0)];
    e.drain_and_apply(&mut q, true, &mut f);
    e.push_samples(&bits(&[1.0, -2.0]));
    let mut out: Vec<Sample> = vec![0; 3];
    e.process_cycle(&mut out, &mut Vec::new(), true, &mut f);
    assert_eq!(out, bits(&[2.0, -4.0, 0.0]));
}

#[test]
fn end_to_end_three_cycles() {
    let mut e = engine(1024);
    let mut f = Maker { next: 0 };
    let half = 0.5f32.to_bits();
    assert_eq!(e.push_samples(&vec![half; 1024]), 1024);
    let mut q: Vec<Command> = Vec::new();

    let mut out: Vec<Sample> = vec![0; 512];
    e.process_cycle(&mut out, &mut q, true, &mut f);
    assert_eq!(out, vec![half; 512]);
    assert_eq!(e.buffer.read_index(), 512);

    let mut out: Vec<Sample> = vec![0; 512];
    e.process_cycle(&mut out, &mut q, true, &mut f);
    assert_eq!(out, vec![half; 512]);
    assert_eq!(e.buffer.read_index(), 1024);

    let mut out: Vec<Sample> = vec![half; 512];
    e.process_cycle(&mut out, &mut q, true, &mut f);
    assert_eq!(out, vec![SILENCE; 512]);
    assert!(out.iter().all(|s| f32::from_bits(*s) == 0.0));
    assert_eq!(e.buffer.read_index(), 1024);
}

#[test]
fn attach_node_appends_or_reports_unavailable() {
    let mut e = engine(16);
    assert_eq!(e.attach_node(None), Applied::Unavailable);
    assert!(e.nodes.is_empty());
    let a = e.attach_node(Some(Recorder { id: 77, params: Vec::new(), gain: 1.0 }));
    assert_eq!(a, Applied::Attached(77));
    assert_eq!(e.nodes.len(), 1);
    assert_eq!(e.nodes[0].id, 77);
    assert_eq!(e.nodes[0].node.get_name(), "recorder");
}

#[test]
fn run_rack_with_no_nodes_leaves_output() {
    let mut e = engine(16);
    let mut out: Vec<Sample> = vec![5, 6, 7];
    e.run_rack(&mut out);
    assert_eq!(out, vec![5, 6, 7]);
}

#[test]
fn set_param_delivers_id_and_payload() {
    let mut e = engine(16);
    let mut f = Maker { next: 0 };
    let mut q = vec![add("rec"), set_param(1, 42, 0.25)];
    e.drain_and_apply(&mut q, true, &mut f);
    assert_eq!(e.nodes[0].node.params, vec![(42, 0.25f32.to_le_bytes().to_vec())]);
}

#[test]
fn deferred_cycle_still_runs_rack() {
    let mut e = engine(16);
    let mut f = Maker { next: 0 };
    let mut q = vec![add("rec"), set_param(1, 0, 2.0)];
    e.drain_and_apply(&mut q, true, &mut f);
    e.push_samples(&bits(&[1.5]));
    let mut pending = vec![set_param(1, 0, 8.0)];
    let mut out: Vec<Sample> = vec![0; 2];
    e.process_cycle(&mut out, &mut pending, false, &mut f);
    assert_eq!(out, bits(&[3.0, 0.0]));
    assert_eq!(pending.len(), 1);
}
