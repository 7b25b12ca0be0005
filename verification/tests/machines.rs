use v_utils::latency::ArrivalClock;
use v_utils::arch::registry::{is_valid_id, BorrowSet};
use v_utils::arch::component::{ComponentState, ComponentTrigger};
use v_utils::arch::keyed::MyKey;
use v_utils::fuzz::corpus::{corpus_line, is_recorded, live_target, parse_corpus, parse_line, CorpusEntry, CorpusError};
use v_utils::fuzz::{fnv, Frng};

#[test]
fn component_lifecycle() {
    let mut s = ComponentState::default();
    assert_eq!(s, ComponentState::PreInitialized);
    assert_eq!(s.transition(ComponentTrigger::Initialize), ComponentState::Ready);
    assert_eq!(s.transition(ComponentTrigger::Start), ComponentState::Starting);
    assert_eq!(s.transition(ComponentTrigger::StartCompleted), ComponentState::Running);
    assert_eq!(s.transition(ComponentTrigger::Degrade), ComponentState::Degrading);
    assert_eq!(s.transition(ComponentTrigger::DegradeCompleted), ComponentState::Degraded);
    assert_eq!(s.transition(ComponentTrigger::Fault), ComponentState::Faulting);
    assert_eq!(s.transition(ComponentTrigger::FaultCompleted), ComponentState::Faulted);
    assert_eq!(s, ComponentState::Faulted);
    assert_eq!(s.to_str(), "Faulted");
}

#[test]
fn component_invalid_transitions() {
    assert_eq!(ComponentState::Disposed.next(ComponentTrigger::Start), None);
    assert_eq!(ComponentState::Faulted.next(ComponentTrigger::Reset), None);
    assert_eq!(ComponentState::Ready.next(ComponentTrigger::Stop), None);
    assert_eq!(ComponentState::Stopped.next(ComponentTrigger::Resume), Some(ComponentState::Resuming));
}

#[test]
fn keys() {
    let k = MyKey::new(3u32, Some(1u32));
    assert_eq!(k.id, 3);
    assert_eq!(k.parent, Some(1));
}

#[test]
fn frng_prefix_property() {
    let mut small = Frng::new(42, 10);
    let mut large = Frng::new(42, 40);
    for _ in 0..10 {
        assert_eq!(small.byte(), large.byte());
    }
    assert_eq!(small.remaining(), 0);
    assert_eq!(large.remaining(), 30);
    assert_eq!(small.byte(), 0);
    assert_eq!(small.below(7), 0);
}

#[test]
fn frng_splitmix_bytes() {
    // SplitMix64 from seed 0: first output is 0xe220a8397b1dcdaf, little-endian.
    let mut f = Frng::new(0, 9);
    let expected: [u8; 8] = 0xe220_a839_7b1d_cdafu64.to_le_bytes();
    for b in expected {
        assert_eq!(f.byte(), b);
    }
    assert_eq!(f.remaining(), 1);
}

#[test]
fn frng_below_and_weighted() {
    let mut f = Frng::new(7, 64);
    assert_eq!(f.below(1), 0);
    assert_eq!(f.remaining(), 64);
    for _ in 0..20 {
        let v = f.below(5);
        assert!(v < 5);
    }
    let weights = [0u32, 3, 0, 2];
    for _ in 0..20 {
        let i = f.weighted(&weights);
        assert!(i == 1 || i == 3);
    }
}

#[test]
fn fnv_known_values() {
    assert_eq!(fnv(&[]), 0x811c_9dc5);
    assert_eq!(fnv(&["a"]), 0xe40c_292c);
    assert_eq!(fnv(&["foobar"]), 0xbf9c_f968);
    assert_eq!(fnv(&["foo", "bar"]), fnv(&["foobar"]));
    assert_eq!(fnv(&["ab", "c"]), fnv(&["a", "bc"]));
}

#[test]
fn corpus_lines() {
    let e = parse_line("walk 12 256 3735928559  # PANIC: boom").unwrap().unwrap();
    assert_eq!(e, CorpusEntry { target: "walk".to_owned(), seed: 12, size: 256, version: 0xdead_beef });
    assert_eq!(parse_line("   # comment"), Ok(None));
    assert_eq!(parse_line(""), Ok(None));
    assert_eq!(parse_line("walk"), Err(CorpusError::MissingSeed));
    assert_eq!(parse_line("walk x"), Err(CorpusError::BadSeed));
    assert_eq!(parse_line("walk 1"), Err(CorpusError::MissingSize));
    assert_eq!(parse_line("walk 1 -2"), Err(CorpusError::BadSize));
    assert_eq!(parse_line("walk 1 2"), Err(CorpusError::MissingVersion));
    assert_eq!(parse_line("walk 1 2 99999999999"), Err(CorpusError::BadVersion));
    assert_eq!(parse_line("walk\t1  2 3 extra"), Ok(Some(CorpusEntry { target: "walk".to_owned(), seed: 1, size: 2, version: 3 })));
}

#[test]
fn corpus_files() {
    let text = "# corpus\nwalk 1 2 3\r\n\nrun 4 5 6  # why\n";
    let es = parse_corpus(text).unwrap();
    assert_eq!(es.len(), 2);
    assert_eq!(es[0].target, "walk");
    assert_eq!(es[1].seed, 4);
    assert_eq!(parse_corpus("walk 1 2 3\nbad\nalso bad x"), Err(CorpusError::MissingSeed));
    assert_eq!(parse_corpus(""), Ok(vec![]));
    let line = corpus_line("walk", 1, 2, 3, "two\nlines");
    assert_eq!(line, "walk 1 2 3  # two lines\n");
    let back = parse_line(line.trim_end()).unwrap().unwrap();
    assert_eq!(back, CorpusEntry { target: "walk".to_owned(), seed: 1, size: 2, version: 3 });
    assert!(is_recorded(&es, "run", 4, 5, 6));
    assert!(!is_recorded(&es, "run", 4, 5, 7));
    assert_eq!(live_target(&es[0], &["run", "walk", "walk"], &[6, 3, 9]), Some(1));
    assert_eq!(live_target(&es[0], &["walk"], &[4]), None);
    assert_eq!(live_target(&es[0], &["other"], &[3]), None);
}

#[test]
fn borrow_set_refuses_double_borrow() {
    let mut b = BorrowSet::new();
    assert!(b.try_borrow("test-1"));
    assert!(b.is_borrowed("test-1"));
    assert!(!b.try_borrow("test-1"));
}

#[test]
fn borrow_set_release_makes_lendable() {
    let mut b = BorrowSet::new();
    assert!(b.try_borrow("test-2"));
    b.release("test-2");
    assert!(!b.is_borrowed("test-2"));
    assert!(b.try_borrow("test-2"));
    b.release("never-lent");
    assert!(b.is_borrowed("test-2"));
}

#[test]
fn component_ids() {
    assert!(is_valid_id("engine-1"));
    assert!(!is_valid_id(""));
    assert!(!is_valid_id("двигатель"));
}

#[test]
fn arrival_clock_keeps_order() {
    let mut c = ArrivalClock::new();
    assert_eq!(c.arrival(1_000, 50), 1_050);
    // a faster message behind a slow one waits for it
    assert_eq!(c.arrival(1_010, 5), 1_050);
    assert_eq!(c.arrival(2_000, 0), 2_000);
    assert_eq!(c.prev_arrival, 2_000);
}

#[test]
fn recorded_line_reads_back() {
    let line = corpus_line("parser", 42, 256, 0xdead_beef, "PANIC: index out of bounds\nat line 3");
    assert_eq!(line, "parser 42 256 3735928559  # PANIC: index out of bounds at line 3\n");
    let e = parse_line(line.trim_end_matches('\n')).unwrap().unwrap();
    assert_eq!((e.target.as_str(), e.seed, e.size, e.version), ("parser", 42, 256, 0xdead_beef));
}

#[test]
fn frng_remaining_after_draws() {
    let mut f = Frng::new(3, 4);
    assert_eq!(f.remaining(), 4);
    let expected = [3usize, 2, 1, 0, 0, 0];
    for want in expected {
        f.byte();
        assert_eq!(f.remaining(), want);
    }
}
