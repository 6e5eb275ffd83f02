use query_gateway::latency::{larger_timeout, LatencyWindow, MAX_SAMPLES};

fn window(samples: &[u64]) -> LatencyWindow {
    let mut window = LatencyWindow::new();
    for s in samples {
        window.record(*s);
    }
    window
}

#[test]
fn an_empty_window_has_no_quantile() {
    let window = LatencyWindow::new();
    assert_eq!(window.quantile(500), None);
    assert_eq!(window.effective_timeout(5_000, 500), 5_000);
}

#[test]
fn the_quantile_is_the_value_at_its_rank() {
    let window = window(&[50, 10, 40, 20, 30]);
    assert_eq!(window.quantile(0), Some(10));
    assert_eq!(window.quantile(249), Some(10));
    assert_eq!(window.quantile(250), Some(20));
    assert_eq!(window.quantile(500), Some(30));
    assert_eq!(window.quantile(750), Some(40));
    assert_eq!(window.quantile(999), Some(40));
    assert_eq!(window.quantile(1000), Some(50));
    assert_eq!(window.quantile(u16::MAX), Some(50));
}

#[test]
fn the_quantile_counts_equal_values() {
    let window = window(&[7, 7, 7, 1, 9, 7]);
    assert_eq!(window.quantile(0), Some(1));
    assert_eq!(window.quantile(200), Some(7));
    assert_eq!(window.quantile(500), Some(7));
    assert_eq!(window.quantile(800), Some(7));
    assert_eq!(window.quantile(1000), Some(9));
    assert_eq!(LatencyWindow::quantile(&window_of_one(), 500), Some(u64::MAX));
}

fn window_of_one() -> LatencyWindow {
    window(&[u64::MAX])
}

#[test]
fn the_quantile_agrees_with_sorting() {
    let samples: Vec<u64> = (0..97u64).map(|i| (i * 7919 + 13) % 101).collect();
    let window = window(&samples);
    let mut sorted = samples.clone();
    sorted.sort();
    for permille in [0u16, 1, 100, 333, 500, 667, 900, 999, 1000] {
        let rank = if permille >= 1000 { sorted.len() - 1 } else { (sorted.len() - 1) * permille as usize / 1000 };
        assert_eq!(window.quantile(permille), Some(sorted[rank]));
    }
}

#[test]
fn a_full_window_forgets_its_oldest_time() {
    let mut window = LatencyWindow::new();
    for i in 0..MAX_SAMPLES as u64 {
        window.record(1_000 + i);
    }
    assert_eq!(window.len(), MAX_SAMPLES);
    assert_eq!(window.quantile(0), Some(1_000));
    window.record(5_000);
    assert_eq!(window.len(), MAX_SAMPLES);
    assert_eq!(window.quantile(0), Some(1_001));
    assert_eq!(window.quantile(1000), Some(5_000));
    for _ in 0..MAX_SAMPLES {
        window.record(1);
    }
    assert_eq!(window.quantile(1000), Some(1));
}

#[test]
fn the_timeout_is_never_below_the_minimum() {
    let window = window(&[100, 200, 300]);
    assert_eq!(window.effective_timeout(150, 500), 200);
    assert_eq!(window.effective_timeout(250, 500), 250);
    assert_eq!(window.effective_timeout(0, 1000), 300);
    assert_eq!(larger_timeout(5, None), 5);
    assert_eq!(larger_timeout(5, Some(4)), 5);
    assert_eq!(larger_timeout(5, Some(6)), 6);
}
