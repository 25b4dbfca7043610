use w8::{
    resolve, ConnectResult, Coordinator, HttpResult, IpAddress, ProbeOutcome, ProbeSet,
    ProbeStep, ProbeTask, ReportError, RunStatus, SocketAddress,
};

fn local(port: u16) -> SocketAddress {
    SocketAddress { ip: IpAddress::V4([127, 0, 0, 1]), port }
}

fn set_of(ports: &[u16], urls: &[&str]) -> ProbeSet {
    let lookups = ports.iter().map(|p| Some(vec![local(*p)])).collect();
    let inputs: Vec<String> = urls.iter().map(|s| s.to_string()).collect();
    resolve(lookups, &inputs).unwrap()
}

/// Makes one attempt for `task`, which finds the target ready or not.
fn attempt(task: &mut ProbeTask, ready: bool) {
    match task {
        ProbeTask::Socket(prober) => prober.observe(if ready {
            ConnectResult::Connected
        } else {
            ConnectResult::Failed
        }),
        ProbeTask::Http(prober) => {
            prober.observe(HttpResult::Response { status: if ready { 200 } else { 500 } })
        }
    }
}

#[test]
fn launch_gives_one_task_per_target() {
    let (coordinator, tasks) =
        Coordinator::launch(set_of(&[80, 443], &["http://a.example/", "http://b.example/"]));
    assert_eq!(coordinator.total(), 4);
    assert_eq!(coordinator.completed(), 0);
    assert_eq!(tasks.len(), 4);
    assert!(matches!(&tasks[0], ProbeTask::Socket(p) if p.address() == local(80)));
    assert!(matches!(&tasks[1], ProbeTask::Socket(p) if p.address() == local(443)));
    assert!(matches!(&tasks[2], ProbeTask::Http(p) if p.url().as_str() == "http://a.example/"));
    assert!(matches!(&tasks[3], ProbeTask::Http(p) if p.url().as_str() == "http://b.example/"));
    for task in &tasks {
        assert_eq!(task.next_step(), ProbeStep::Attempt);
    }
}

#[test]
fn a_run_without_targets_is_over_at_once() {
    let (coordinator, tasks) = Coordinator::launch(set_of(&[], &[]));
    assert!(tasks.is_empty());
    assert_eq!(coordinator.total(), 0);
    assert!(coordinator.is_complete());
    assert_eq!(coordinator.status(), RunStatus::Complete);
}

#[test]
fn a_run_with_targets_starts_waiting() {
    let (coordinator, _tasks) = Coordinator::launch(set_of(&[1, 2, 3], &[]));
    assert!(!coordinator.is_complete());
    assert_eq!(coordinator.status(), RunStatus::Waiting { remaining: 3 });
}

#[test]
fn the_run_ends_with_the_last_report() {
    let (mut coordinator, _tasks) = Coordinator::launch(set_of(&[1, 2], &["http://a.example/"]));
    assert_eq!(coordinator.record(2), Ok(RunStatus::Waiting { remaining: 2 }));
    assert!(!coordinator.is_complete());
    assert_eq!(coordinator.record(0), Ok(RunStatus::Waiting { remaining: 1 }));
    assert!(!coordinator.is_complete());
    assert_eq!(coordinator.completed(), 2);
    assert_eq!(coordinator.record(1), Ok(RunStatus::Complete));
    assert!(coordinator.is_complete());
    assert_eq!(coordinator.completed(), 3);
    assert_eq!(coordinator.status(), RunStatus::Complete);
}

#[test]
fn reports_may_come_in_any_order() {
    let orders: [[usize; 3]; 6] =
        [[0, 1, 2], [0, 2, 1], [1, 0, 2], [1, 2, 0], [2, 0, 1], [2, 1, 0]];
    for order in orders {
        let (mut coordinator, _tasks) = Coordinator::launch(set_of(&[1, 2, 3], &[]));
        assert_eq!(coordinator.record(order[0]), Ok(RunStatus::Waiting { remaining: 2 }));
        assert_eq!(coordinator.record(order[1]), Ok(RunStatus::Waiting { remaining: 1 }));
        assert!(!coordinator.is_complete());
        assert_eq!(coordinator.record(order[2]), Ok(RunStatus::Complete));
        assert!(coordinator.is_complete());
    }
}

#[test]
fn a_second_report_of_a_task_is_not_counted() {
    let (mut coordinator, _tasks) = Coordinator::launch(set_of(&[1, 2], &[]));
    assert_eq!(coordinator.record(0), Ok(RunStatus::Waiting { remaining: 1 }));
    assert_eq!(coordinator.record(0), Err(ReportError::AlreadyReported));
    assert_eq!(coordinator.record(0), Err(ReportError::AlreadyReported));
    assert_eq!(coordinator.completed(), 1);
    assert!(!coordinator.is_complete());
    assert_eq!(coordinator.record(1), Ok(RunStatus::Complete));
    assert_eq!(coordinator.record(1), Err(ReportError::AlreadyReported));
    assert!(coordinator.is_complete());
}

#[test]
fn a_report_of_no_task_is_not_counted() {
    let (mut coordinator, _tasks) = Coordinator::launch(set_of(&[1, 2], &[]));
    assert_eq!(coordinator.record(2), Err(ReportError::UnknownTask));
    assert_eq!(coordinator.record(usize::MAX), Err(ReportError::UnknownTask));
    assert_eq!(coordinator.completed(), 0);
    assert_eq!(coordinator.status(), RunStatus::Waiting { remaining: 2 });

    let (mut idle, _none) = Coordinator::launch(set_of(&[], &[]));
    assert_eq!(idle.record(0), Err(ReportError::UnknownTask));
    assert!(idle.is_complete());
}

#[test]
fn the_run_waits_for_the_slowest_target() {
    // Five targets; the target of task i is ready at its attempt number
    // delays[i]. Every round makes one attempt for each task still running.
    let delays: [u32; 5] = [3, 1, 7, 2, 5];
    let (mut coordinator, mut tasks) =
        Coordinator::launch(set_of(&[1, 2, 3], &["http://a.example/", "http://b.example/"]));
    let mut finished_in_round: Vec<Option<u32>> = vec![None; 5];
    let mut round: u32 = 0;
    while !coordinator.is_complete() {
        round += 1;
        assert!(round <= 7, "the run should be over after the slowest target's round");
        for (number, task) in tasks.iter_mut().enumerate() {
            if finished_in_round[number].is_some() {
                continue;
            }
            assert_eq!(task.next_step(), ProbeStep::Attempt);
            attempt(task, round >= delays[number]);
            if task.next_step() == ProbeStep::Finished(ProbeOutcome::Ready) {
                finished_in_round[number] = Some(round);
                let status = coordinator.record(number).unwrap();
                let outstanding = finished_in_round.iter().filter(|f| f.is_none()).count();
                if outstanding == 0 {
                    assert_eq!(status, RunStatus::Complete);
                } else {
                    assert_eq!(status, RunStatus::Waiting { remaining: outstanding });
                }
            }
        }
    }
    assert_eq!(round, 7);
    assert_eq!(
        finished_in_round,
        vec![Some(3), Some(1), Some(7), Some(2), Some(5)]
    );
}

#[test]
fn a_run_for_one_port_that_opens_late() {
    // The port is closed for the first 200 attempts and open from then on.
    let (mut coordinator, mut tasks) = Coordinator::launch(set_of(&[9], &[]));
    assert_eq!(tasks.len(), 1);
    let mut attempts: u32 = 0;
    while tasks[0].next_step() == ProbeStep::Attempt {
        assert!(!coordinator.is_complete());
        attempts += 1;
        attempt(&mut tasks[0], attempts > 200);
    }
    assert_eq!(attempts, 201);
    assert_eq!(coordinator.record(0), Ok(RunStatus::Complete));
    assert!(coordinator.is_complete());
}
