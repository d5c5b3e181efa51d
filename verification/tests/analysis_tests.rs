use shellyrgbaudio::analysis::window_step;

fn analysed_samples(fft_size: usize, hop: usize, samples: usize) -> Vec<usize> {
    let mut filled = 0;
    let mut out = Vec::new();
    for k in 1..=samples {
        let (next, analyse) = window_step(filled, fft_size, hop);
        if analyse {
            out.push(k);
        }
        filled = next;
    }
    out
}

#[test]
fn window_step_grows_then_advances_by_the_hop() {
    assert_eq!(window_step(0, 8, 4), (1, false));
    assert_eq!(window_step(6, 8, 4), (7, false));
    assert_eq!(window_step(7, 8, 4), (4, true));
    assert_eq!(window_step(7, 8, 8), (0, true));
}

#[test]
fn a_hop_of_half_the_window_analyses_twice_as_often() {
    assert_eq!(analysed_samples(8, 8, 32), vec![8, 16, 24, 32]);
    assert_eq!(analysed_samples(8, 4, 32), vec![8, 12, 16, 20, 24, 28, 32]);
    assert_eq!(analysed_samples(8, 3, 20), vec![8, 11, 14, 17, 20]);
}
