use shellyrgbaudio::supervise::{
    mix_frame_limit, mix_frames, mix_take, plan_streams, rescan_interval_ms, supervise_step, SupervisorState,
    MAX_APP_STREAMS,
};

#[test]
fn rescans_wait_at_least_a_quarter_second() {
    assert_eq!(rescan_interval_ms(0), 250);
    assert_eq!(rescan_interval_ms(249), 250);
    assert_eq!(rescan_interval_ms(2000), 2000);
}

#[test]
fn new_streams_skip_running_ones_and_stop_at_the_limit() {
    assert_eq!(plan_streams(&vec![5], &vec![5, 6, 7], 10), (vec![1, 2], false));
    assert_eq!(plan_streams(&vec![1, 2], &vec![3, 1, 4, 5], 3), (vec![0], true));
    assert_eq!(plan_streams(&vec![1, 2, 3], &vec![1, 2, 3], 3), (vec![], false));
    assert_eq!(plan_streams(&vec![], &vec![8, 8, 9], 10), (vec![0, 2], false));
}

#[test]
fn problems_are_logged_once() {
    let start = SupervisorState { announced_failure: false, announced_limit: false };
    let (s1, a1) = supervise_step(start, Err("access denied".to_string()), &vec![]);
    assert_eq!(a1.log_failure.as_deref(), Some("access denied"));
    assert!(a1.start.is_empty());
    let (s2, a2) = supervise_step(s1, Err("access denied".to_string()), &vec![]);
    assert!(a2.log_failure.is_none());
    let (s3, a3) = supervise_step(s2, Ok(vec![4, 5]), &vec![4]);
    assert_eq!(a3.start, vec![1]);
    assert!(!a3.log_limit);
    assert!(!s3.announced_failure);
    let (_, a4) = supervise_step(s3, Err("again".to_string()), &vec![]);
    assert_eq!(a4.log_failure.as_deref(), Some("again"));

    let full: Vec<u32> = (0..MAX_APP_STREAMS as u32).collect();
    let (s5, a5) = supervise_step(start, Ok(vec![1000]), &full);
    assert!(a5.log_limit);
    assert!(a5.start.is_empty());
    let (_, a6) = supervise_step(s5, Ok(vec![1000]), &full);
    assert!(!a6.log_limit);
}

#[test]
fn mixer_takes_whole_frames() {
    assert_eq!(mix_frame_limit(9600, 2), 4800);
    assert_eq!(mix_frame_limit(10, 2), 32);
    assert_eq!(mix_frame_limit(64, 0), 64);
    assert_eq!(mix_frame_limit(64, 100), 1);
    assert_eq!(mix_frames(&vec![10, 7, 0], 2, 100), 5);
    assert_eq!(mix_frames(&vec![1000], 2, 100), 100);
    assert_eq!(mix_frames(&vec![], 2, 100), 0);
    assert_eq!(mix_take(7, 2, 5), 6);
    assert_eq!(mix_take(20, 2, 5), 10);
}
