use smartcat::lines::Lines;
use smartcat::prioritizer::{
    auto_prioritize, Confidence, EmptyCollection, FirstAlnum, Head, HeadAndTail, PathDepth,
    Prioritizer,
};

fn rows(texts: &[&str]) -> Vec<String> {
    texts.iter().map(|t| t.to_string()).collect()
}

fn make_lines() -> Lines {
    Lines::from_rows(&rows(&["first", "second", "third"]), 20, 20)
}

fn prios(lines: &Lines) -> Vec<Vec<u32>> {
    lines.lines.iter().map(|l| l.prio.clone()).collect()
}

#[test]
fn confidence_ranks_increase() {
    assert_eq!(Confidence::Low.rank(), 10);
    assert_eq!(Confidence::Medium.rank(), 20);
    assert_eq!(Confidence::High.rank(), 30);
    assert_eq!(Confidence::Certain.rank(), 100);
}

#[test]
fn head_prioritizer() {
    let mut lines = make_lines();
    let p = Head::new();
    assert_eq!(p.confidence(), Confidence::Low);
    p.prioritize(&mut lines);
    assert_eq!(prios(&lines), [vec![0], vec![1], vec![2]]);
}

#[test]
fn head_and_tail_prioritizer() {
    let mut lines = make_lines();
    let p = HeadAndTail::new(&lines);
    assert_eq!(p.confidence(), Confidence::Medium);
    p.prioritize(&mut lines);
    assert_eq!(prios(&lines), [vec![0], vec![1], vec![0]]);
}

#[test]
fn path_depth_prioritizer() {
    let mut lines = Lines::from_rows(&rows(&["x", "x/x", "x/x/x", "x/x/y", "x/x/z", "y", "y/x"]), 20, 20);
    let p = PathDepth::new(&lines);
    p.prioritize(&mut lines);
    assert_eq!(
        prios(&lines),
        [vec![1], vec![2], vec![3], vec![3], vec![3], vec![1], vec![2]]
    );
}

#[test]
fn first_alnum_prioritizer() {
    let mut lines = Lines::from_rows(&rows(&["x", " x", "  x", "  y", "  z", "y", " x"]), 20, 20);
    let p = FirstAlnum::new(&lines);
    p.prioritize(&mut lines);
    assert_eq!(
        prios(&lines),
        [vec![0], vec![1], vec![2], vec![2], vec![2], vec![0], vec![1]]
    );
}

#[test]
fn first_alnum_scores_zero_without_alnum() {
    let mut lines = Lines::from_rows(&rows(&["---", "  a", ""]), 20, 20);
    let p = FirstAlnum::new(&lines);
    p.prioritize(&mut lines);
    assert_eq!(prios(&lines), [vec![0], vec![2], vec![0]]);
}

#[test]
fn path_depth_confidence_certain() {
    // 7 lines, 5 of them contain the separator: 5 >= 7 - 2.
    let lines = Lines::from_rows(&rows(&["x", "x/x", "x/x/x", "x/x/y", "x/x/z", "y", "y/x"]), 20, 20);
    assert_eq!(PathDepth::new(&lines).confidence(), Confidence::Certain);
}

#[test]
fn path_depth_confidence_boundary() {
    // Exactly n - 2 of n lines contain the separator.
    let lines = Lines::from_rows(&rows(&["a/b", "c", "d"]), 20, 20);
    assert_eq!(PathDepth::new(&lines).confidence(), Confidence::Certain);
    // One fewer and the pattern no longer matches.
    let lines = Lines::from_rows(&rows(&["a", "c", "d"]), 20, 20);
    assert_eq!(PathDepth::new(&lines).confidence(), Confidence::Low);
}

#[test]
fn path_depth_confidence_needs_more_than_two_lines() {
    let lines = Lines::from_rows(&rows(&["a/b", "c/d"]), 20, 20);
    assert_eq!(PathDepth::new(&lines).confidence(), Confidence::Low);
}

#[test]
fn first_alnum_confidence_certain() {
    let lines = Lines::from_rows(&rows(&["tree", "\u{251c} a", "\u{251c} b", "\u{2514} c"]), 20, 20);
    assert_eq!(FirstAlnum::new(&lines).confidence(), Confidence::Certain);
}

#[test]
fn first_alnum_confidence_boundary() {
    // Exactly n - 2 of n lines contain a branch glyph.
    let lines = Lines::from_rows(&rows(&["\u{2514} a", "b", "c"]), 20, 20);
    assert_eq!(FirstAlnum::new(&lines).confidence(), Confidence::Certain);
    let lines = Lines::from_rows(&rows(&["a", "b", "c"]), 20, 20);
    assert_eq!(FirstAlnum::new(&lines).confidence(), Confidence::Low);
}

#[test]
fn first_alnum_confidence_needs_more_than_two_lines() {
    let lines = Lines::from_rows(&rows(&["\u{251c} a", "\u{2514} b"]), 20, 20);
    assert_eq!(FirstAlnum::new(&lines).confidence(), Confidence::Low);
}

#[test]
fn auto_prioritize_empty_collection() {
    let mut lines = Lines::from_rows(&rows(&[]), 20, 20);
    assert_eq!(auto_prioritize(&mut lines), Err(EmptyCollection));
    assert!(lines.lines.is_empty());
}

#[test]
fn auto_prioritize_picks_path_depth() {
    let mut lines = Lines::from_rows(&rows(&["x", "x/x", "x/x/x", "y", "y/x"]), 20, 20);
    assert_eq!(auto_prioritize(&mut lines), Ok(()));
    assert_eq!(prios(&lines), [vec![1], vec![2], vec![3], vec![1], vec![2]]);
}

#[test]
fn auto_prioritize_picks_first_alnum() {
    let mut lines = Lines::from_rows(&rows(&["tree", "\u{251c} a", "\u{2514} b"]), 20, 20);
    assert_eq!(auto_prioritize(&mut lines), Ok(()));
    // Indentation depth of the first alphanumeric character.
    assert_eq!(prios(&lines), [vec![0], vec![2], vec![2]]);
}

#[test]
fn auto_prioritize_falls_back_to_head_and_tail() {
    let mut lines = Lines::from_rows(&rows(&["a", "b", "c", "d", "e"]), 20, 20);
    assert_eq!(auto_prioritize(&mut lines), Ok(()));
    assert_eq!(prios(&lines), [vec![0], vec![1], vec![2], vec![1], vec![0]]);
}

#[test]
fn auto_prioritize_tie_prefers_first_alnum() {
    // Path-like and tree-like at once: both report Certain; the fixed
    // precedence picks FirstAlnum.
    let mut lines = Lines::from_rows(&rows(&["\u{251c} a/b", "\u{251c} c/d", "\u{2514} e/f"]), 20, 20);
    assert_eq!(auto_prioritize(&mut lines), Ok(()));
    assert_eq!(prios(&lines), [vec![2], vec![2], vec![2]]);
}

#[test]
fn full_pipeline_prunes_to_target() {
    let mut lines = Lines::from_rows(
        &rows(&["top", "a/1", "a/b/1", "a/b/2", "a/b/3", "a/2", "end"]),
        80,
        4,
    );
    assert_eq!(auto_prioritize(&mut lines), Ok(()));
    assert_eq!(lines.prune(), Ok(()));
    assert!(lines.kept_lines() <= 4);
    let out = lines.write("...");
    // The shallow entries survive; the deep run is elided.
    assert!(out.contains("top"));
    assert!(out.contains("..."));
}
