use true_cyber::args::link_request;
use true_cyber::cell::{cell_summary, next_pos, replay_log};
use true_cyber::hexcode::hex;
use true_cyber::link::{cast_frame, link_frame, receipt_lines};
use true_cyber::sync::{base_url, frame_url, log_url, pull_outcome, sync_verdict, Pull, Verdict};

fn v(xs: &[&str]) -> Vec<String> {
    xs.iter().map(|s| s.to_string()).collect()
}

#[test]
fn empty_log_replays_to_empty_cell() {
    let (g, n) = replay_log(&[]).unwrap();
    assert_eq!(n, 0);
    let s = cell_summary(&g, n);
    assert_eq!(s.height, 0);
    assert_eq!(s.particles, 0);
    assert_eq!(s.root.len(), 64);
    assert_eq!(next_pos(&g, &[1u8; 32]), Some((0, [0u8; 32])));
}

#[test]
fn cast_frames_replay_as_one_block_each() {
    let (g, _) = replay_log(&[]).unwrap();
    let q = link_request(&v(&["alice", "bob", "--neuron", "01"])).unwrap();
    let f1 = cast_frame(&g, &q).expect("frame");
    assert_eq!(f1[0], 0x1F);
    assert_eq!(pull_outcome(&f1), Pull::Frames(1));
    let (g1, n1) = replay_log(&f1).unwrap();
    assert_eq!(n1, 1);
    let s1 = cell_summary(&g1, n1);
    assert_eq!(s1.height, 1);
    let (step, prev) = next_pos(&g1, &true_cyber::identity::key32("01").unwrap()).unwrap();
    assert_eq!(step, 1);
    assert_ne!(prev, [0u8; 32]);
    let f2 = cast_frame(&g1, &q).expect("frame");
    let mut log = f1.clone();
    log.extend_from_slice(&f2);
    let (g2, n2) = replay_log(&log).unwrap();
    assert_eq!(n2, 2);
    assert_eq!(cell_summary(&g2, n2).height, 2);
    // replaying the same frame twice: the second is refused and not counted
    let mut dup = f1.clone();
    dup.extend_from_slice(&f1);
    let (g3, n3) = replay_log(&dup).unwrap();
    assert_eq!(n3, 1);
    assert_eq!(cell_summary(&g3, n3).height, 1);
}

#[test]
fn link_frame_depends_on_its_fields() {
    let a = link_frame([1; 32], [2; 32], [3; 32], 1, 0, 0, [0; 32]);
    let b = link_frame([1; 32], [2; 32], [3; 32], 2, 0, 0, [0; 32]);
    assert_ne!(a, b);
    assert_eq!(a[1], b'!');
}

#[test]
fn pull_outcomes() {
    assert_eq!(pull_outcome(&[]), Pull::NothingNew);
    assert_eq!(pull_outcome(b"garbage"), Pull::Undecodable);
}

#[test]
fn urls() {
    assert_eq!(base_url("https://a/b///"), "https://a/b");
    assert_eq!(base_url("///"), "");
    assert_eq!(log_url("https://a", 0), "https://a/log?from=0");
    assert_eq!(log_url("https://a", 1234567890123), "https://a/log?from=1234567890123");
    assert_eq!(frame_url("https://a"), "https://a/v1/frame");
}

#[test]
fn verdicts() {
    assert_eq!(sync_verdict(false, "aa", "bb"), Verdict::NotReplicated);
    assert_eq!(sync_verdict(true, "aa", ""), Verdict::Verified);
    assert_eq!(sync_verdict(true, "aa", "aa"), Verdict::Verified);
    assert_eq!(sync_verdict(true, "aa", "bb"), Verdict::Disagrees);
}

#[test]
fn receipt_lines_trimmed_without_fences() {
    assert_eq!(receipt_lines("---\n  accepted: yes \r\n\n---\nstep: 3"), v(&["accepted: yes", "step: 3"]));
    assert!(receipt_lines("").is_empty());
}

#[test]
fn summary_root_is_hex_of_root() {
    let (g, n) = replay_log(&[]).unwrap();
    let s = cell_summary(&g, n);
    assert_eq!(s.root, hex(&g.bbg.state.root()));
}

#[test]
fn intent_frames_are_applied_but_not_counted() {
    let intent = cybergraph::IntentRecord {
        neuron: [1u8; 32],
        h0: 0,
        scope_hash: [2u8; 32],
        signature: [0u8; 64],
    };
    let frame = foculus::encode_intent_frame(&intent);
    assert_eq!(pull_outcome(&frame), Pull::Frames(1));
    let (g, n) = replay_log(&frame).unwrap();
    assert_eq!(n, 0);
    assert_eq!(cell_summary(&g, n).height, 0);
}

#[test]
fn link_frame_layout() {
    let f = link_frame([1; 32], [2; 32], [3; 32], 0x0102, -1, 7, [9; 32]);
    // payload: 32 + 8 + 32 + 8 + 4 + (4 * 32 + 8 + 1 + 8) + 4 = 233 bytes
    assert_eq!(&f[..5], &[0x1F, b'!', b'b', 0xE9, 0x01]);
    assert_eq!(f.len(), 5 + 233);
    assert_eq!(&f[5..37], &[1u8; 32]);
    assert_eq!(&f[37..45], &7u64.to_le_bytes());
    assert_eq!(&f[77..85], &0u64.to_le_bytes());
    assert_eq!(&f[85..89], &1u32.to_le_bytes());
    let amount_at = 89 + 4 * 32;
    assert_eq!(&f[amount_at..amount_at + 8], &0x0102u64.to_le_bytes());
    assert_eq!(f[amount_at + 8], 0xFF);
    assert_eq!(&f[f.len() - 4..], &0u32.to_le_bytes());
}

#[test]
fn amounts_that_could_overflow_a_balance_are_refused() {
    let half = u64::MAX / 2 + 1;
    let f1 = link_frame([1; 32], [2; 32], [3; 32], half, 0, 0, [0; 32]);
    assert!(replay_log(&f1).is_some());
    let f2 = link_frame([4; 32], [2; 32], [3; 32], half, 0, 0, [0; 32]);
    let mut log = f1.clone();
    log.extend_from_slice(&f2);
    assert!(replay_log(&log).is_none());
    let max = link_frame([1; 32], [2; 32], [3; 32], u64::MAX, 0, 0, [0; 32]);
    assert_eq!(replay_log(&max).unwrap().1, 1);
}
