use striker::arguments::arguments::Arguments;
use striker::arguments::parameters::Parameters;
use striker::errors::StrikerError;
use striker::report::report::Report;

fn counters(report: &Report) -> [i128; 13] {
    [
        report.total_rounds as i128,
        report.total_hands as i128,
        report.total_bet as i128,
        report.total_won as i128,
        report.total_blackjacks as i128,
        report.total_doubles as i128,
        report.total_splits as i128,
        report.total_splits_ace as i128,
        report.total_wins as i128,
        report.total_loses as i128,
        report.total_pushes as i128,
        report.total_shuffles as i128,
        report.out_of_cards as i128,
    ]
}

fn sample(seed: usize) -> Report {
    let mut report = Report::new();
    report.total_rounds = seed;
    report.total_hands = 7 * seed + 1;
    report.total_bet = 20 * seed;
    report.total_won = 5 - 3 * seed as isize;
    report.total_blackjacks = seed / 2;
    report.total_doubles = seed + 2;
    report.total_splits = seed + 3;
    report.total_splits_ace = seed % 3;
    report.total_wins = 3 * seed;
    report.total_loses = 4 * seed;
    report.total_pushes = seed / 3;
    report.total_shuffles = seed + 9;
    report.out_of_cards = seed % 2;
    report
}

#[test]
fn test_report_init_merge_finish_to_json() {
    let args = Arguments::default();
    let parameters = Parameters::new(&args);
    let mut report1 = Report::new();
    let mut report2 = Report::new();
    let test_count = 1000;

    report1.init(&parameters);

    report2.total_rounds = test_count;
    report2.total_hands = test_count;
    report2.total_bet = test_count;
    report2.total_won = test_count as isize;
    report2.total_blackjacks = test_count;
    report2.total_doubles = test_count;
    report2.total_splits = test_count;
    report2.total_splits_ace = test_count;
    report2.total_wins = test_count;
    report2.total_loses = test_count;
    report2.total_pushes = test_count;

    report1.merge(&report2);
    report1.start -= 20;
    report1.finish();

    assert_eq!(report1.total_rounds, test_count);
    assert_eq!(report1.total_hands, test_count);
    assert_eq!(report1.total_bet, test_count);
    assert_eq!(report1.total_won, test_count as isize);
    assert_eq!(report1.total_blackjacks, test_count);
    assert_eq!(report1.total_doubles, test_count);
    assert_eq!(report1.total_splits, test_count);
    assert_eq!(report1.total_splits_ace, test_count);
    assert_eq!(report1.total_wins, test_count);
    assert_eq!(report1.total_loses, test_count);
    assert_eq!(report1.total_pushes, test_count);

    assert!(report1.duration > 0);
    assert!(report1.end >= report1.start);
    assert_eq!(report1.duration, report1.end - report1.start);
}

#[test]
fn test_init_heads_the_report() {
    let mut args = Arguments::default();
    args.strategy = "basic".to_string();
    args.number_of_threads = 3;
    let parameters = Parameters::new(&args);
    let mut report = sample(4);
    report.init_at(&parameters, 1_700_000_000);
    assert_eq!(report.name, parameters.name);
    assert_eq!(report.version, "v3.00.00");
    assert_eq!(report.simulator, "striker-rust");
    assert_eq!(report.playbook, "single-deck-basic");
    assert_eq!(report.strategy, "basic");
    assert_eq!(report.decks, "single-deck");
    assert_eq!(report.epoch, parameters.epoch);
    assert_eq!(report.total_threads, 3);
    assert_eq!(report.start, 1_700_000_000);
    assert_eq!(counters(&report), counters(&sample(4)));
}

#[test]
fn test_finish_measures_the_duration() {
    let mut report = Report::new();
    report.start = 100;
    report.finish_at(130);
    assert_eq!(report.end, 130);
    assert_eq!(report.duration, 30);
    report.finish_at(100);
    assert_eq!(report.duration, 0);
    // a clock that went back
    report.finish_at(90);
    assert_eq!(report.end, 90);
    assert_eq!(report.duration, 0);
}

#[test]
fn test_merge_adds_every_counter() {
    let mut report = sample(5);
    report.merge(&sample(8));
    let a = counters(&sample(5));
    let b = counters(&sample(8));
    let sum = counters(&report);
    for i in 0..13 {
        assert_eq!(sum[i], a[i] + b[i]);
    }
    // merging an empty report changes nothing
    report.merge(&Report::new());
    assert_eq!(counters(&report), sum);
}

#[test]
fn test_merge_is_commutative_and_associative() {
    let (a, b, c) = (sample(3), sample(10), sample(21));
    let mut ab = a.clone();
    ab.merge(&b);
    let mut ba = b.clone();
    ba.merge(&a);
    assert_eq!(counters(&ab), counters(&ba));
    let mut ab_c = ab.clone();
    ab_c.merge(&c);
    let mut bc = b.clone();
    bc.merge(&c);
    let mut a_bc = a.clone();
    a_bc.merge(&bc);
    assert_eq!(counters(&ab_c), counters(&a_bc));
    let mut cba = c.clone();
    cba.merge(&b);
    cba.merge(&a);
    assert_eq!(counters(&cba), counters(&ab_c));
}

#[test]
fn test_merge_out_of_range_is_an_overflow() {
    let mut full = sample(1);
    full.total_pushes = usize::MAX;
    let one = sample(3);
    assert_eq!(one.total_pushes, 1);
    assert!(!full.can_merge(&one));
    assert_eq!(full.try_merge(&one), Err(StrikerError::Overflow));
    assert_eq!(counters(&full)[10], usize::MAX as i128);
    assert_eq!(full.total_hands, 8);
    full.total_pushes = usize::MAX - 1;
    assert!(!full.can_merge(&sample(6)));
    assert!(full.can_merge(&one));
    let mut low = sample(1);
    low.total_won = isize::MIN;
    assert_eq!(low.try_merge(&sample(3)), Err(StrikerError::Overflow));
    assert_eq!(low.try_merge(&sample(1)), Ok(()));
    assert_eq!(low.total_won, isize::MIN + 2);
    assert_eq!(low.total_hands, 16);
}
