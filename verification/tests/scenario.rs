use green_threads::context::ThreadContext;
use green_threads::runtime::{guard, yeild_thread, Runtime, MAX_NUM_THREADS};
use green_threads::slot::State;

const TRAMPOLINE: u64 = 0x0000_5555_0000_2000;
const CLEANUP: u64 = 0x0000_5555_0000_3000;

/// What a run did, counted by who called.
#[derive(Debug, Default, PartialEq, Eq)]
struct Counts {
    /// Yields of the main flow that switched.
    main_yields: u64,
    /// Yields of threads that switched.
    thread_yields: u64,
    /// Yields that switched, by the slot that yielded.
    yields_of: [u64; MAX_NUM_THREADS + 1],
    /// Threads that returned.
    completions: u64,
    /// The slots in the order in which they got the processor.
    order: Vec<usize>,
}

/// Runs the program to its end: the main flow yields until a yield finds no
/// one; the thread in slot `i` yields `yields[i]` times, then returns.
fn run_to_end(runtime: &mut Runtime, yields: &mut [u64]) -> Counts {
    let mut counts = Counts::default();
    for _ in 0..100_000 {
        let current = runtime.current();
        if current == 0 {
            if !runtime.t_yeild() {
                return counts;
            }
            counts.main_yields += 1;
            counts.yields_of[0] += 1;
        } else if yields[current] > 0 {
            yields[current] -= 1;
            assert_eq!(yeild_thread(runtime), Ok(true));
            counts.thread_yields += 1;
            counts.yields_of[current] += 1;
        } else {
            assert_eq!(guard(runtime), Ok(()));
            counts.completions += 1;
        }
        assert_ne!(runtime.current(), current);
        counts.order.push(runtime.current());
        assert!(runtime.is_sound());
    }
    panic!("the run did not end");
}

fn spawn_threads(runtime: &mut Runtime, count: usize) {
    for i in 0..count {
        assert_eq!(runtime.spawn(0x1000 * (i as u64 + 1), TRAMPOLINE, CLEANUP), Ok(i + 1));
    }
}

#[test]
fn two_workloads_of_ten_and_fifteen_yields() {
    let mut runtime = Runtime::new();
    runtime.init();
    spawn_threads(&mut runtime, 2);
    let mut yields = [0, 10, 15, 0, 0];
    let counts = run_to_end(&mut runtime, &mut yields);

    // Every yield of a workload switches. The first yield of the main flow
    // starts the workloads, and the main flow yields again in every round,
    // since each round comes back to it.
    assert_eq!(counts.yields_of, [16, 10, 15, 0, 0]);
    assert_eq!(counts.thread_yields, 10 + 15);
    assert_eq!(counts.main_yields, 15 + 1);
    assert_eq!(counts.completions, 2);
    assert_eq!(&counts.order[..4], &[1, 2, 0, 1]);
    assert_eq!(counts.order.len() as u64, counts.thread_yields + counts.main_yields + 2);

    assert_eq!(runtime.current(), 0);
    assert_eq!(runtime.threads()[0].state(), State::Running);
    assert_eq!(runtime.threads()[1].state(), State::Available);
    assert_eq!(runtime.threads()[2].state(), State::Available);
    assert_eq!(yields, [0, 0, 0, 0, 0]);
    assert!(!runtime.t_yeild());
}

#[test]
fn two_workloads_interleave_until_the_shorter_one_ends() {
    let mut runtime = Runtime::new();
    runtime.init();
    spawn_threads(&mut runtime, 2);
    let mut yields = [0, 2, 4, 0, 0];
    let counts = run_to_end(&mut runtime, &mut yields);
    assert_eq!(counts.order, vec![1, 2, 0, 1, 2, 0, 1, 2, 0, 2, 0, 2, 0]);
    assert_eq!(counts.thread_yields, 6);
    assert_eq!(counts.main_yields, 5);
    assert_eq!(counts.completions, 2);
}

#[test]
fn run_without_threads_ends_at_once() {
    let mut runtime = Runtime::new();
    let mut yields = [0; MAX_NUM_THREADS + 1];
    let counts = run_to_end(&mut runtime, &mut yields);
    assert_eq!(counts, Counts::default());
    assert_eq!(runtime.current(), 0);
}

#[test]
fn run_ends_with_every_slot_available() {
    for threads in 1..=MAX_NUM_THREADS {
        for longest in [0u64, 1, 2, 7, 40] {
            let mut runtime = Runtime::new();
            runtime.init();
            spawn_threads(&mut runtime, threads);
            let mut yields = [0u64; MAX_NUM_THREADS + 1];
            let mut total = 0;
            for i in 1..=threads {
                yields[i] = (longest * i as u64) % (longest + 1);
                total += yields[i];
            }
            let counts = run_to_end(&mut runtime, &mut yields);
            assert_eq!(counts.thread_yields, total);
            assert_eq!(counts.completions, threads as u64);
            assert_eq!(runtime.current(), 0);
            assert_eq!(runtime.threads()[0].state(), State::Running);
            for i in 1..=MAX_NUM_THREADS {
                assert_eq!(runtime.threads()[i].state(), State::Available);
            }
            assert!(!runtime.t_yeild());
        }
    }
}

#[test]
fn run_goes_on_while_a_thread_is_ready() {
    let mut runtime = Runtime::new();
    spawn_threads(&mut runtime, 1);
    for _ in 0..1000 {
        assert!(runtime.t_yeild());
    }
    assert_eq!(runtime.threads()[1].state(), State::Ready);
    assert_eq!(runtime.current(), 0);
}

/// A thread that adds `1..=5` into a register, one term before each of its
/// five yields, among `others` threads that fill the registers with their
/// own values. Gives the sum that the thread holds when it returns.
fn running_sum_among(others: usize) -> u64 {
    let mut runtime = Runtime::new();
    runtime.init();
    spawn_threads(&mut runtime, 1 + others);
    let mut term = 0u64;
    let mut result = None;
    let mut finished = 0;
    let mut other_steps = [0u64; MAX_NUM_THREADS + 1];
    for _ in 0..10_000 {
        let current = runtime.current();
        if current == 0 {
            runtime.set_cpu(ThreadContext { rbx: 0xdead, ..runtime.cpu() });
            if !runtime.t_yeild() {
                break;
            }
        } else if current == 1 {
            if term < 5 {
                term += 1;
                let cpu = runtime.cpu();
                runtime.set_cpu(ThreadContext { rbx: cpu.rbx + term, ..cpu });
                assert_eq!(yeild_thread(&mut runtime), Ok(true));
            } else {
                result = Some(runtime.cpu().rbx);
                assert_eq!(guard(&mut runtime), Ok(()));
                finished += 1;
            }
        } else {
            other_steps[current] += 1;
            let noise = 1000 * current as u64 + other_steps[current];
            runtime.set_cpu(ThreadContext {
                rsp: runtime.cpu().rsp,
                r15: noise,
                r14: noise,
                r13: noise,
                r12: noise,
                rbx: noise,
                rbp: noise,
            });
            if other_steps[current] < 3 + current as u64 {
                assert_eq!(yeild_thread(&mut runtime), Ok(true));
            } else {
                assert_eq!(guard(&mut runtime), Ok(()));
                finished += 1;
            }
        }
    }
    assert_eq!(finished, 1 + others);
    result.expect("the thread returned")
}

#[test]
fn running_sum_is_the_same_however_many_threads_interleave() {
    assert_eq!(running_sum_among(0), 15);
    assert_eq!(running_sum_among(1), 15);
    assert_eq!(running_sum_among(2), 15);
    assert_eq!(running_sum_among(3), 15);
}

#[test]
fn registers_and_stack_of_a_suspended_slot_stay_as_they_are() {
    let mut runtime = Runtime::new();
    runtime.init();
    spawn_threads(&mut runtime, 3);
    assert!(runtime.t_yeild());
    let held = ThreadContext { rsp: runtime.cpu().rsp - 256, r15: 1, r14: 2, r13: 3, r12: 4, rbx: 5, rbp: 6 };
    runtime.set_cpu(held);
    let stack = runtime.threads()[1].stack().clone();
    assert_eq!(yeild_thread(&mut runtime), Ok(true));
    let mut round = 0;
    while runtime.current() != 1 {
        assert_eq!(runtime.threads()[1].ctx(), held);
        assert_eq!(runtime.threads()[1].state(), State::Ready);
        assert!(runtime.threads()[1].stack() == &stack);
        round += 1;
        runtime.set_cpu(ThreadContext { rbx: round, ..runtime.cpu() });
        if runtime.current() == 3 {
            assert_eq!(guard(&mut runtime), Ok(()));
        } else {
            assert_eq!(yeild_thread(&mut runtime), Ok(true));
        }
    }
    assert_eq!(round, 3);
    assert_eq!(runtime.cpu(), held);
    assert!(runtime.threads()[1].stack() == &stack);
}

#[test]
fn library_run_ends_with_every_thread_completed() {
    let mut runtime = Runtime::new();
    runtime.init();
    spawn_threads(&mut runtime, 2);
    runtime.set_cpu(ThreadContext { rbx: 42, ..ThreadContext::default() });
    runtime.run(vec![0, 10, 15, 0, 0]);
    assert_eq!(runtime.current(), 0);
    assert_eq!(runtime.threads()[0].state(), State::Running);
    for i in 1..=MAX_NUM_THREADS {
        assert_eq!(runtime.threads()[i].state(), State::Available);
    }
    assert_eq!(runtime.cpu().rbx, 42);
    assert!(runtime.is_sound());
    assert!(!runtime.t_yeild());
}

#[test]
fn library_run_agrees_with_a_run_step_by_step() {
    for yields in [[0u64, 0, 0, 0, 0], [9, 3, 0, 5, 1], [0, 1, 1, 1, 1], [0, 7, 2, 0, 30]] {
        let mut stepped = Runtime::new();
        stepped.init();
        spawn_threads(&mut stepped, MAX_NUM_THREADS);
        let mut left = yields;
        run_to_end(&mut stepped, &mut left);

        let mut whole = Runtime::new();
        whole.init();
        spawn_threads(&mut whole, MAX_NUM_THREADS);
        whole.run(yields.to_vec());

        assert_eq!(whole.current(), stepped.current());
        assert_eq!(whole.cpu(), stepped.cpu());
        for i in 0..=MAX_NUM_THREADS {
            assert_eq!(whole.threads()[i].state(), stepped.threads()[i].state());
        }
    }
}

#[test]
fn library_run_returns_threads_that_it_is_not_told_of() {
    let mut runtime = Runtime::new();
    spawn_threads(&mut runtime, 3);
    runtime.run(vec![0, 4]);
    assert_eq!(runtime.current(), 0);
    for i in 1..=MAX_NUM_THREADS {
        assert_eq!(runtime.threads()[i].state(), State::Available);
    }
    runtime.run(Vec::new());
    assert_eq!(runtime.current(), 0);
}
