use rust_roguelike::profiler::{TurnProfiler, COMPLETE};

fn rows(turn: i64, times: &[(&str, u64)], end: u64, start: u64) -> Vec<(i64, String, u64)> {
    let mut profiler = TurnProfiler::new();
    let mut measured = profiler.start(start);
    for (name, at) in times {
        measured.split(name, *at);
    }
    profiler
        .end(turn, measured, end, 0)
        .into_iter()
        .map(|r| (r.turn, r.split, r.ms))
        .collect()
}

#[test]
fn splits_measure_from_the_last_cut() {
    assert_eq!(
        rows(3, &[("ai", 110), ("movement", 110), ("regen", 145)], 150, 100),
        vec![
            (3, "ai".to_string(), 10),
            (3, "movement".to_string(), 0),
            (3, "regen".to_string(), 35),
            (3, COMPLETE.to_string(), 50),
        ]
    );
}

#[test]
fn a_turn_without_splits_has_its_total() {
    assert_eq!(rows(-1, &[], 7, 7), vec![(-1, "complete".to_string(), 0)]);
    assert_eq!(rows(0, &[], u64::MAX, 0), vec![(0, "complete".to_string(), u64::MAX)]);
}

#[test]
fn a_clock_that_runs_backwards_measures_nothing() {
    assert_eq!(
        rows(9, &[("a", 50), ("b", 40), ("c", 45)], 10, 100),
        vec![
            (9, "a".to_string(), 0),
            (9, "b".to_string(), 0),
            (9, "c".to_string(), 5),
            (9, "complete".to_string(), 0),
        ]
    );
}
