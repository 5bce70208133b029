use haar_bands::tree::{Schedule, Step};

fn bands_shown(levels: usize) -> Vec<usize> {
    let mut schedule = Schedule::new(levels);
    let mut shown = Vec::new();
    loop {
        match schedule.next() {
            Step::Residual(k) => shown.push(k + 1),
            Step::Detail(k) => shown.push(k),
            Step::Done => break,
            _ => {}
        }
    }
    shown
}

#[test]
fn callback_order_two_levels() {
    assert_eq!(bands_shown(2), vec![2, 1, 0]);
}

#[test]
fn callback_order_six_levels() {
    assert_eq!(bands_shown(6), vec![6, 5, 4, 3, 2, 1, 0]);
}

#[test]
fn full_pass_one_level() {
    let mut schedule = Schedule::new(1);
    let steps: Vec<Step> = (0..6).map(|_| schedule.next()).collect();
    assert_eq!(
        steps,
        vec![
            Step::Analyze(0),
            Step::Residual(0),
            Step::Detail(0),
            Step::Synthesize(0),
            Step::Done,
            Step::Done,
        ]
    );
}

#[test]
fn full_pass_three_levels_and_restart() {
    let mut schedule = Schedule::new(3);
    let mut steps = Vec::new();
    for _ in 0..10 {
        steps.push(schedule.next());
    }
    assert_eq!(
        steps,
        vec![
            Step::Analyze(0),
            Step::Analyze(1),
            Step::Analyze(2),
            Step::Residual(2),
            Step::Detail(2),
            Step::Synthesize(2),
            Step::Detail(1),
            Step::Synthesize(1),
            Step::Detail(0),
            Step::Synthesize(0),
        ]
    );
    assert_eq!(schedule.next(), Step::Done);
    schedule.restart();
    assert_eq!(schedule.next(), Step::Analyze(0));
}

#[test]
fn delay_is_two_to_the_levels_and_stable() {
    let schedule = Schedule::new(3);
    assert_eq!(schedule.delay(), 8);
    assert_eq!(schedule.delay(), 8);
    assert_eq!(Schedule::new(6).delay(), 64);
    assert_eq!(Schedule::new(1).delay(), 2);
}
