use popup_core::config::AppConfig;
use popup_core::engine::{decide_fire, decide_opacity};
use popup_core::scheduler::{Phase, Scheduler};
use rand::rngs::StdRng;
use rand::SeedableRng;

fn seeded(seed: u64) -> StdRng {
    StdRng::seed_from_u64(seed)
}

#[test]
fn opacity_stays_in_bounds() {
    let mut rng = seeded(1);
    for _ in 0..200 {
        let o = decide_opacity(30, 60, &mut rng);
        assert!((30..=60).contains(&o));
    }
}

#[test]
fn opacity_with_equal_bounds_is_that_value() {
    let mut rng = seeded(2);
    for p in [0u8, 1, 50, 99, 100] {
        assert_eq!(decide_opacity(p, p, &mut rng), p);
    }
}

#[test]
fn fire_never_fires_at_zero_chance() {
    let mut rng = seeded(3);
    for _ in 0..200 {
        assert!(!decide_fire(0, 0, &mut rng));
    }
}

#[test]
fn fire_always_fires_at_full_chance() {
    let mut rng = seeded(4);
    for _ in 0..200 {
        assert!(decide_fire(100, 100, &mut rng));
    }
}

#[test]
fn decisions_are_deterministic_for_a_seed() {
    let mut first = seeded(42);
    let mut second = seeded(42);
    for _ in 0..100 {
        assert_eq!(decide_fire(10, 90, &mut first), decide_fire(10, 90, &mut second));
        assert_eq!(decide_opacity(0, 100, &mut first), decide_opacity(0, 100, &mut second));
    }
}

#[test]
fn scheduler_starts_idle_and_runs() {
    let mut s = Scheduler::new(1000);
    assert_eq!(s.phase, Phase::Idle);
    assert!(!s.is_running());
    s.start();
    assert!(s.is_running());
    assert_eq!(s.cadence_ms, 1000);
}

#[test]
fn idle_scheduler_never_fires() {
    let mut s = Scheduler::new(1000);
    let cfg = AppConfig::new();
    let mut rng = seeded(5);
    assert!(s.tick(&cfg, &mut rng).is_none());
    assert_eq!(s.phase, Phase::Idle);
}

#[test]
fn stop_signal_ends_ticking_without_requests() {
    let mut s = Scheduler::new(1000);
    s.start();
    s.request_stop();
    assert_eq!(s.phase, Phase::Stopping);
    // the certain-fire configuration: any further tick would have fired
    let cfg = AppConfig {
        popup_chance_min: 100,
        popup_chance_max: 100,
        popup_opacity_min: 50,
        popup_opacity_max: 100,
    };
    let mut rng = seeded(6);
    assert!(s.tick(&cfg, &mut rng).is_none());
    assert!(s.is_stopped());
    for _ in 0..10 {
        assert!(s.tick(&cfg, &mut rng).is_none());
        assert!(s.is_stopped());
    }
}

#[test]
fn running_scheduler_fires_when_chance_is_certain() {
    let mut s = Scheduler::new(250);
    s.start();
    let cfg = AppConfig {
        popup_chance_min: 100,
        popup_chance_max: 100,
        popup_opacity_min: 20,
        popup_opacity_max: 80,
    };
    let mut rng = seeded(7);
    let request = s.tick(&cfg, &mut rng).expect("a certain chance must fire");
    assert!((20..=80).contains(&request.opacity));
    assert_eq!(request.id.len(), 42);
    assert!(request.id.starts_with("popup-"));
    assert!(request.transparent);
    assert!(request.always_on_top);
    assert!(request.focused);
    assert!(request.skip_taskbar);
    assert!(!request.decorations);
    assert!(!request.resizable);
    assert!(!request.maximizable);
    assert!(!request.minimizable);
    assert_eq!(s.phase, Phase::Running);
}

#[test]
fn running_scheduler_never_fires_at_zero_chance() {
    let mut s = Scheduler::new(250);
    s.start();
    let cfg = AppConfig {
        popup_chance_min: 0,
        popup_chance_max: 0,
        popup_opacity_min: 0,
        popup_opacity_max: 100,
    };
    let mut rng = seeded(8);
    for _ in 0..100 {
        assert!(s.tick(&cfg, &mut rng).is_none());
    }
}

#[test]
fn popup_identifiers_are_fresh_each_tick() {
    let mut s = Scheduler::new(250);
    s.start();
    let cfg = AppConfig {
        popup_chance_min: 100,
        popup_chance_max: 100,
        popup_opacity_min: 50,
        popup_opacity_max: 50,
    };
    let mut rng = seeded(9);
    let first = s.tick(&cfg, &mut rng).unwrap();
    let second = s.tick(&cfg, &mut rng).unwrap();
    assert_ne!(first.id, second.id);
}
