use v_utils::io::xdg::{clear_step, index_step, ClearStep, IndexStep, LinkState, TargetState, XdgBase};
use v_utils::io::progress_bar::ProgressBar;
use v_utils::snapshots::{join_str_blocks_v, order_points};

#[test]
fn blocks_side_by_side() {
    let r = join_str_blocks_v("ab\ncd".to_string(), "1\n2".to_string());
    assert_eq!(r, "ab1\ncd2");
}

#[test]
fn blocks_side_by_side_crlf_and_trailing() {
    let r = join_str_blocks_v("ab\r\ncd\n".to_string(), "1\n2\n".to_string());
    assert_eq!(r, "ab1\ncd2");
}

#[test]
fn blocks_side_by_side_empty() {
    assert_eq!(join_str_blocks_v(String::new(), String::new()), "");
}

#[test]
fn order_levels_step() {
    let orders = [(2usize, Some(10u32)), (4, None), (5, Some(7))];
    let r = order_points(7, &orders);
    assert_eq!(r, vec![None, None, Some(10), Some(10), None, Some(7), Some(7)]);
}

#[test]
fn order_levels_none() {
    let r = order_points::<u32>(3, &[]);
    assert_eq!(r, vec![None, None, None]);
}

#[test]
fn progress_bar_defaults() {
    let p = ProgressBar::new(100);
    assert_eq!(p.total, 100);
    assert_eq!(p.width, 40);
    assert_eq!(p.fill, '█');
    assert_eq!(p.empty, '░');
    assert!(p.prefix.is_empty());
}

#[test]
fn progress_bar_frame() {
    let p = ProgressBar::new(10).with_width(4).with_chars('#', '.').with_prefix("dl".to_string());
    assert_eq!(p.frame_text(1, 25, None), "dl ▕#...▏ 25%");
    assert_eq!(p.frame_text(4, 100, Some(75)), "dl ▕####▏ 100% ETA 01:15");
    let q = ProgressBar::new(3).with_width(2);
    assert_eq!(q.frame_text(0, 0, Some(5)), "▕░░▏ 0% ETA 05");
}

#[test]
fn xdg_fallbacks() {
    assert_eq!(XdgBase::Config.fallback(None, "/home/u"), "/home/u/.config");
    assert_eq!(XdgBase::Data.fallback(None, "/home/u"), "/home/u/.local/share");
    assert_eq!(XdgBase::Cache.fallback(None, "/h"), "/h/.cache");
    assert_eq!(XdgBase::State.fallback(None, "/h"), "/h/.local/state");
    assert_eq!(XdgBase::Runtime.fallback(None, "/h"), "/h/.runtime");
    assert_eq!(XdgBase::Config.fallback(Some("/x".to_string()), "/h"), "/x");
    assert_eq!(XdgBase::Runtime.var(), "XDG_RUNTIME_DIR");
}

#[test]
fn xdg_index_decisions() {
    assert_eq!(index_step(LinkState::Missing), IndexStep::Link);
    assert_eq!(index_step(LinkState::Symlink { to_target: true, old_exists: true }), IndexStep::Done);
    assert_eq!(index_step(LinkState::Symlink { to_target: false, old_exists: true }), IndexStep::Refuse);
    assert_eq!(index_step(LinkState::Symlink { to_target: false, old_exists: false }), IndexStep::Replace);
    assert_eq!(index_step(LinkState::Present), IndexStep::Migrate);
    assert_eq!(clear_step(TargetState::Missing), ClearStep::Nothing);
    assert_eq!(clear_step(TargetState::Dir { empty: true }), ClearStep::RemoveDir);
    assert_eq!(clear_step(TargetState::Dir { empty: false }), ClearStep::Refuse);
    assert_eq!(clear_step(TargetState::File { len: 0 }), ClearStep::RemoveFile);
    assert_eq!(clear_step(TargetState::File { len: 3 }), ClearStep::Refuse);
}
