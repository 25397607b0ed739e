use kernel_core::executor::{run_until_idle, Continuation, Step, TaskQueue};

struct Countdown {
    left: u32,
    yielding: bool,
}

impl Continuation for Countdown {
    fn run(self) -> Step<Self> {
        if self.left == 0 {
            Step::Done
        } else {
            Step::Rearmed {
                task: Countdown { left: self.left - 1, yielding: self.yielding },
                woken_while_running: self.yielding,
            }
        }
    }
}

#[test]
fn queue_order() {
    let mut q = TaskQueue::new();
    q.push(1);
    q.push(2);
    q.push_preempt(0);
    q.schedule(3, true);
    q.schedule(9, false);
    assert_eq!(q.len(), 5);
    let mut out = vec![];
    while let Some(x) = q.fetch() {
        out.push(x);
    }
    assert_eq!(out, vec![9, 0, 1, 2, 3]);
}

#[test]
fn run_until_idle_drains() {
    let mut q = TaskQueue::new();
    q.push(Countdown { left: 2, yielding: true });
    q.push(Countdown { left: 0, yielding: false });
    q.push(Countdown { left: 3, yielding: false });
    let n = run_until_idle(&mut q);
    assert_eq!(n, 3 + 1 + 4);
    assert_eq!(q.len(), 0);
    let mut empty: TaskQueue<Countdown> = TaskQueue::new();
    assert_eq!(run_until_idle(&mut empty), 0);
}
