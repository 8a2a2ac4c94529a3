use kairos::config::{
    HEAP_SIZE, QUANTUM_MS, SCHED_POLICY, SYS_CH_CLOSE, SYS_CH_CREATE, SYS_EXIT, SYS_GETPID, SYS_PRINT,
    SYS_RECV, SYS_RECV_FRAME, SYS_SEND, SYS_SEND_FRAME, SYS_SLEEP, SYS_SPAWN, SYS_TIME, SYS_YIELD,
};

#[test]
fn policy_is_valid() {
    // Whatever the build env says, the enum must be constructible.
    let _ = SCHED_POLICY;
}

#[test]
fn default_quantum_is_sane() {
    assert!((1..=1000).contains(&QUANTUM_MS));
}

#[test]
fn heap_size_is_sane() {
    assert!(HEAP_SIZE >= 4 * 1024 * 1024);
}

#[test]
fn syscall_numbers_are_unique() {
    let nums = [
        SYS_EXIT, SYS_YIELD, SYS_SLEEP, SYS_PRINT, SYS_GETPID, SYS_TIME, SYS_SPAWN,
        SYS_CH_CREATE, SYS_CH_CLOSE, SYS_SEND, SYS_RECV, SYS_SEND_FRAME, SYS_RECV_FRAME,
    ];
    for (i, a) in nums.iter().enumerate() {
        for b in &nums[i + 1..] {
            assert_ne!(a, b);
        }
    }
}
