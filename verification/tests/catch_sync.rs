use std::collections::BTreeMap;

use medius::catch::{collapse, sync_commands, Capture, CatchClass, CatchCommand, CatchFilter, FilterSet};

fn key(class: u8, id: u16, direction: u8) -> u64 {
    (class as u64) * 0x1000000 + (id as u64) * 0x100 + direction as u64
}

fn table(set: &FilterSet) -> BTreeMap<u64, u8> {
    (0..set.len())
        .map(|i| {
            let (k, f) = set.row(i);
            (k, f.capture.as_u8())
        })
        .collect()
}

fn run(mut t: BTreeMap<u64, u8>, cmds: &[CatchCommand]) -> BTreeMap<u64, u8> {
    for c in cmds {
        if !c.on && c.class == 0xFF && c.id == 0xFFFF {
            t.clear();
        } else if c.on {
            t.insert(key(c.class, c.id, c.direction), c.capture);
        } else {
            t.remove(&key(c.class, c.id, c.direction));
        }
    }
    t
}

fn reaches(prev: &[CatchFilter], next: &[CatchFilter]) {
    let p = collapse(&prev.to_vec());
    let n = collapse(&next.to_vec());
    let cmds = sync_commands(&p, &n);
    assert_eq!(run(table(&p), &cmds), table(&n), "{prev:?} -> {next:?} via {cmds:?}");
}

#[test]
fn the_sync_frames_take_the_box_to_the_next_table() {
    let a = CatchFilter::traffic(CatchClass::HidIn, 1);
    let b = CatchFilter::traffic(CatchClass::HidOut, 2).with_capture(Capture::First(8));
    let c = CatchFilter::class_only(CatchClass::Button);
    let all = CatchFilter::everything();
    reaches(&[], &[a, b]);
    reaches(&[a, b], &[]);
    reaches(&[a, b], &[b.with_capture(Capture::First(16)), c]);
    reaches(&[all, a], &[a, c]);
    reaches(&[all], &[]);
    reaches(&[a], &[all, a]);
    reaches(&[all.with_capture(Capture::First(4)), b], &[all, b]);
}
