//! What a reconnect or a recovery re-sends, and in which order: the held overrides, the lock rows
//! (fewest commands per row, a button blanket widened onto the declared buttons, media in the
//! order taken), the catch table, the rewrite rules and the field transforms, in the box's order;
//! for a box that restarted, the clip's settings and triggers too.

use crate::catch::{command_for, entry_command, CatchCommand, FilterSet};
use crate::clip::{packet_view, ClipPacketTrigger, ClipTrigger, PacketTriggerSpec};
use crate::opcode::CLIP_SET_COUNT;
use crate::reconcile::{expand_rows, held_of, reassert_rows, settings_frames, DesiredState, LockKey};
use crate::rules::{rewrite_view, RewriteSpec, StoredRewrite, StoredTransform};
use crate::types::{Action, Usage};
use vstd::prelude::*;

verus! {

/// One frame of a replay.
#[derive(Debug)]
pub enum Replay {
    /// A held override, re-injected.
    Inject(Usage, Action),
    /// One lock command: `(class, id, direction)` and scale.
    Lock(LockKey, i16),
    /// A catch entry, set.
    Catch(CatchCommand),
    /// A rewrite rule, added.
    Rewrite(StoredRewrite),
    /// A field transform, added.
    Transform(StoredTransform),
    /// A clip setting: id and value.
    ClipSet(u8, u8),
    /// A clip trigger, bound.
    ClipTrigger(ClipTrigger),
    /// A clip packet trigger, bound.
    ClipPacketTrigger(ClipPacketTrigger),
}

/// A replay frame's fields as values.
pub enum ReplaySpec {
    Inject(Usage, Action),
    Lock(LockKey, i16),
    Catch(CatchCommand),
    Rewrite(RewriteSpec),
    Transform(StoredTransform),
    ClipSet(u8, u8),
    ClipTrigger(ClipTrigger),
    ClipPacketTrigger(PacketTriggerSpec),
}

/// A replay frame as values.
pub open spec fn replay_view(r: Replay) -> ReplaySpec {
    match r {
        Replay::Inject(u, a) => ReplaySpec::Inject(u, a),
        Replay::Lock(k, s) => ReplaySpec::Lock(k, s),
        Replay::Catch(c) => ReplaySpec::Catch(c),
        Replay::Rewrite(r) => ReplaySpec::Rewrite(rewrite_view(r)),
        Replay::Transform(t) => ReplaySpec::Transform(t),
        Replay::ClipSet(id, v) => ReplaySpec::ClipSet(id, v),
        Replay::ClipTrigger(t) => ReplaySpec::ClipTrigger(t),
        Replay::ClipPacketTrigger(t) => ReplaySpec::ClipPacketTrigger(packet_view(t)),
    }
}

/// The views of a run of replay frames.
pub open spec fn replay_views(v: Seq<Replay>) -> Seq<ReplaySpec> {
    v.map_values(|r: Replay| replay_view(r))
}

/// The held-state part of a replay.
pub open spec fn held_replay(d: DesiredState) -> Seq<ReplaySpec> {
    held_of(d.override_rows()).map_values(|p: (Usage, Action)| ReplaySpec::Inject(p.0, p.1))
        + expand_rows(
        reassert_rows(d.lock_rows(), d.locks(), d.media_order()),
        d.button_count_spec(),
    ).map_values(|p: (LockKey, i16)| ReplaySpec::Lock(p.0, p.1)) + d.catch_rows().map_values(
        |r: (u64, crate::catch::CatchFilter)| ReplaySpec::Catch(entry_command(r.1, true)),
    ) + d.rewrites().map_values(|r: RewriteSpec| ReplaySpec::Rewrite(r)) + d.transforms().map_values(
        |t: StoredTransform| ReplaySpec::Transform(t),
    )
}

/// The clip part of a replay: settings off their default, then triggers, then packet triggers.
pub open spec fn clip_replay(d: DesiredState) -> Seq<ReplaySpec> {
    settings_frames(d.clip_settings(), CLIP_SET_COUNT as nat).map_values(
        |s: (u8, u8)| ReplaySpec::ClipSet(s.0, s.1),
    ) + d.clip_trigger_rows().map_values(|r: (u64, ClipTrigger)| ReplaySpec::ClipTrigger(r.1))
        + d.packet_triggers().map_values(|t: PacketTriggerSpec| ReplaySpec::ClipPacketTrigger(t))
}

/// Everything a replay re-sends, in order.
pub open spec fn replay_spec(d: DesiredState, with_clip: bool) -> Seq<ReplaySpec> {
    held_replay(d) + if with_clip {
        clip_replay(d)
    } else {
        Seq::empty()
    }
}

/// One more frame onto a run: its view joins the views.
proof fn lemma_views_push(v: Seq<Replay>, r: Replay)
    ensures
        replay_views(v.push(r)) == replay_views(v).push(replay_view(r)),
{
    assert(replay_views(v.push(r)) =~= replay_views(v).push(replay_view(r)));
}

/// The frames a reconnect (`with_clip` off) or a recovery from a restart (`with_clip` on) sends
/// to bring the box back to what is held.
pub fn replay(d: &DesiredState, with_clip: bool) -> (v: Vec<Replay>)
    requires
        d.wf(),
    ensures
        replay_views(v@) == replay_spec(*d, with_clip),
{
    let mut out: Vec<Replay> = Vec::new();

    let held = d.held();
    let ghost s0 = held@;
    let mut i: usize = 0;
    while i < held.len()
        invariant
            i <= held@.len(),
            s0 == held@,
            replay_views(out@) == s0.take(i as int).map_values(
                |p: (Usage, Action)| ReplaySpec::Inject(p.0, p.1),
            ),
        decreases held@.len() - i,
    {
        let (u, a) = held[i];
        proof {
            lemma_views_push(out@, Replay::Inject(u, a));
            assert(s0.take(i as int + 1) =~= s0.take(i as int).push(s0[i as int]));
        }
        out.push(Replay::Inject(u, a));
        i = i + 1;
    }
    assert(s0.take(s0.len() as int) =~= s0);
    let ghost a0 = replay_views(out@);

    let locks = d.held_locks();
    let ghost s1 = locks@;
    let mut i: usize = 0;
    while i < locks.len()
        invariant
            i <= locks@.len(),
            s1 == locks@,
            replay_views(out@) == a0 + s1.take(i as int).map_values(
                |p: (LockKey, i16)| ReplaySpec::Lock(p.0, p.1),
            ),
        decreases locks@.len() - i,
    {
        let (k, sc) = locks[i];
        proof {
            lemma_views_push(out@, Replay::Lock(k, sc));
            assert(s1.take(i as int + 1) =~= s1.take(i as int).push(s1[i as int]));
        }
        out.push(Replay::Lock(k, sc));
        i = i + 1;
    }
    assert(s1.take(s1.len() as int) =~= s1);
    let ghost a1 = replay_views(out@);

    let table: FilterSet = d.catch_table();
    let ghost s2 = table.rows();
    let mut i: usize = 0;
    while i < table.len()
        invariant
            i <= s2.len(),
            s2 == table.rows(),
            replay_views(out@) == a1 + s2.take(i as int).map_values(
                |r: (u64, crate::catch::CatchFilter)| ReplaySpec::Catch(entry_command(r.1, true)),
            ),
        decreases s2.len() - i,
    {
        let (_, f) = table.row(i);
        let c = command_for(f, true);
        proof {
            lemma_views_push(out@, Replay::Catch(c));
            assert(s2.take(i as int + 1) =~= s2.take(i as int).push(s2[i as int]));
        }
        out.push(Replay::Catch(c));
        i = i + 1;
    }
    assert(s2.take(s2.len() as int) =~= s2);
    let ghost a2 = replay_views(out@);

    let rules = d.held_rewrites();
    let ghost s3 = d.rewrites();
    let mut i: usize = 0;
    while i < rules.len()
        invariant
            i <= rules@.len(),
            s3 == rules@.map_values(|r: StoredRewrite| rewrite_view(r)),
            replay_views(out@) == a2 + s3.take(i as int).map_values(|r: RewriteSpec| ReplaySpec::Rewrite(r)),
        decreases rules@.len() - i,
    {
        let r = rules[i].clone();
        proof {
            lemma_views_push(out@, Replay::Rewrite(r));
            assert(s3.take(i as int + 1) =~= s3.take(i as int).push(s3[i as int]));
        }
        out.push(Replay::Rewrite(r));
        i = i + 1;
    }
    assert(s3.take(s3.len() as int) =~= s3);
    let ghost a3 = replay_views(out@);

    let transforms = d.held_transforms();
    let ghost s4 = transforms@;
    let mut i: usize = 0;
    while i < transforms.len()
        invariant
            i <= transforms@.len(),
            s4 == transforms@,
            replay_views(out@) == a3 + s4.take(i as int).map_values(|t: StoredTransform| ReplaySpec::Transform(t)),
        decreases transforms@.len() - i,
    {
        let t = transforms[i];
        proof {
            lemma_views_push(out@, Replay::Transform(t));
            assert(s4.take(i as int + 1) =~= s4.take(i as int).push(s4[i as int]));
        }
        out.push(Replay::Transform(t));
        i = i + 1;
    }
    assert(s4.take(s4.len() as int) =~= s4);
    assert(replay_views(out@) =~= held_replay(*d));
    if !with_clip {
        assert(replay_views(out@) =~= replay_spec(*d, with_clip));
        return out;
    }
    let ghost b0 = replay_views(out@);

    let config = d.clip_config_frames();
    let ghost s5 = config.settings@;
    let mut i: usize = 0;
    while i < config.settings.len()
        invariant
            i <= s5.len(),
            s5 == config.settings@,
            replay_views(out@) == b0 + s5.take(i as int).map_values(|s: (u8, u8)| ReplaySpec::ClipSet(s.0, s.1)),
        decreases s5.len() - i,
    {
        let (id, value) = config.settings[i];
        proof {
            lemma_views_push(out@, Replay::ClipSet(id, value));
            assert(s5.take(i as int + 1) =~= s5.take(i as int).push(s5[i as int]));
        }
        out.push(Replay::ClipSet(id, value));
        i = i + 1;
    }
    assert(s5.take(s5.len() as int) =~= s5);
    let ghost b1 = replay_views(out@);

    let ghost s6 = config.triggers@;
    let mut i: usize = 0;
    while i < config.triggers.len()
        invariant
            i <= s6.len(),
            s6 == config.triggers@,
            replay_views(out@) == b1 + s6.take(i as int).map_values(|t: ClipTrigger| ReplaySpec::ClipTrigger(t)),
        decreases s6.len() - i,
    {
        let t = config.triggers[i];
        proof {
            lemma_views_push(out@, Replay::ClipTrigger(t));
            assert(s6.take(i as int + 1) =~= s6.take(i as int).push(s6[i as int]));
        }
        out.push(Replay::ClipTrigger(t));
        i = i + 1;
    }
    assert(s6.take(s6.len() as int) =~= s6);
    let ghost b2 = replay_views(out@);

    let ghost s7 = config.packet_triggers@.map_values(|t: ClipPacketTrigger| packet_view(t));
    let mut i: usize = 0;
    while i < config.packet_triggers.len()
        invariant
            i <= config.packet_triggers@.len(),
            s7 == config.packet_triggers@.map_values(|t: ClipPacketTrigger| packet_view(t)),
            replay_views(out@) == b2 + s7.take(i as int).map_values(
                |t: PacketTriggerSpec| ReplaySpec::ClipPacketTrigger(t),
            ),
        decreases config.packet_triggers@.len() - i,
    {
        let t = config.packet_triggers[i].clone();
        proof {
            lemma_views_push(out@, Replay::ClipPacketTrigger(t));
            assert(s7.take(i as int + 1) =~= s7.take(i as int).push(s7[i as int]));
        }
        out.push(Replay::ClipPacketTrigger(t));
        i = i + 1;
    }
    assert(s7.take(s7.len() as int) =~= s7);
    proof {
        assert(d.clip_trigger_rows().map_values(|r: (u64, ClipTrigger)| ReplaySpec::ClipTrigger(r.1))
            =~= s6.map_values(|t: ClipTrigger| ReplaySpec::ClipTrigger(t)));
    }
    assert(replay_views(out@) =~= replay_spec(*d, with_clip));
    out
}

} // verus!
