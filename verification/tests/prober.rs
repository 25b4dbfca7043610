use w8::{
    is_success, ConnectResult, HttpProber, HttpResult, HttpUrl, IpAddress, ProbeOutcome,
    ProbeState, ProbeStep, ProbeTarget, ProbeTask, RetryLoop, SocketAddress, SocketProber,
};

fn unbound() -> SocketAddress {
    SocketAddress { ip: IpAddress::V4([127, 0, 0, 1]), port: 9 }
}

fn health() -> HttpUrl {
    HttpUrl::parse("http://localhost:8080/health").unwrap()
}

/// Runs a socket prober against an address that accepts the attempt with
/// the number `ready_at` (counted from 1) and every later one; gives the
/// number of attempts made.
fn attempts_until_connected(ready_at: u32) -> u32 {
    let mut prober = SocketProber::new(unbound());
    let mut made: u32 = 0;
    loop {
        match prober.next_step() {
            ProbeStep::Finished(ProbeOutcome::Ready) => return made,
            ProbeStep::Attempt => {
                made += 1;
                let result =
                    if made >= ready_at { ConnectResult::Connected } else { ConnectResult::Failed };
                prober.observe(result);
            }
        }
    }
}

#[test]
fn status_codes_in_the_2xx_range_are_success() {
    assert!(is_success(200));
    assert!(is_success(204));
    assert!(is_success(299));
}

#[test]
fn status_codes_outside_the_2xx_range_are_not_success() {
    assert!(!is_success(0));
    assert!(!is_success(100));
    assert!(!is_success(199));
    assert!(!is_success(300));
    assert!(!is_success(301));
    assert!(!is_success(404));
    assert!(!is_success(500));
    assert!(!is_success(u16::MAX));
}

#[test]
fn a_fresh_loop_is_pending_and_asks_for_an_attempt() {
    let fresh = RetryLoop::new();
    assert_eq!(fresh.state(), ProbeState::Pending);
    assert_eq!(fresh.next_step(), ProbeStep::Attempt);
}

#[test]
fn a_failed_attempt_leads_to_retrying() {
    let mut retry = RetryLoop::new();
    retry.record(false);
    assert_eq!(retry.state(), ProbeState::Retrying);
    assert_eq!(retry.next_step(), ProbeStep::Attempt);
    retry.record(false);
    assert_eq!(retry.state(), ProbeState::Retrying);
    assert_eq!(retry.next_step(), ProbeStep::Attempt);
}

#[test]
fn the_first_attempt_may_succeed() {
    let mut retry = RetryLoop::new();
    retry.record(true);
    assert_eq!(retry.state(), ProbeState::Ready);
    assert_eq!(retry.next_step(), ProbeStep::Finished(ProbeOutcome::Ready));
}

#[test]
fn ready_is_final() {
    let mut retry = RetryLoop::new();
    retry.record(false);
    retry.record(true);
    retry.record(false);
    assert_eq!(retry.state(), ProbeState::Ready);
    retry.record(false);
    retry.record(true);
    assert_eq!(retry.state(), ProbeState::Ready);
    assert_eq!(retry.next_step(), ProbeStep::Finished(ProbeOutcome::Ready));
}

#[test]
fn socket_prober_keeps_its_address() {
    let mut prober = SocketProber::new(unbound());
    assert_eq!(prober.address(), unbound());
    prober.observe(ConnectResult::Failed);
    prober.observe(ConnectResult::Connected);
    assert_eq!(prober.address(), unbound());
}

#[test]
fn socket_prober_succeeds_only_at_the_first_connection() {
    let mut prober = SocketProber::new(unbound());
    assert_eq!(prober.state(), ProbeState::Pending);
    for _ in 0..4 {
        assert_eq!(prober.next_step(), ProbeStep::Attempt);
        prober.observe(ConnectResult::Failed);
        assert_eq!(prober.state(), ProbeState::Retrying);
    }
    assert_eq!(prober.next_step(), ProbeStep::Attempt);
    prober.observe(ConnectResult::Connected);
    assert_eq!(prober.state(), ProbeState::Ready);
    assert_eq!(prober.next_step(), ProbeStep::Finished(ProbeOutcome::Ready));
}

#[test]
fn socket_prober_makes_as_many_attempts_as_it_takes() {
    assert_eq!(attempts_until_connected(1), 1);
    assert_eq!(attempts_until_connected(2), 2);
    assert_eq!(attempts_until_connected(5), 5);
    assert_eq!(attempts_until_connected(1000), 1000);
}

#[test]
fn http_prober_keeps_its_url() {
    let mut prober = HttpProber::new(health());
    assert_eq!(prober.url().as_str(), "http://localhost:8080/health");
    prober.observe(HttpResult::Response { status: 200 });
    assert_eq!(prober.url().as_str(), "http://localhost:8080/health");
}

#[test]
fn http_prober_retries_on_500_until_200() {
    let mut prober = HttpProber::new(health());
    for _ in 0..3 {
        assert_eq!(prober.next_step(), ProbeStep::Attempt);
        prober.observe(HttpResult::Response { status: 500 });
        assert_eq!(prober.state(), ProbeState::Retrying);
    }
    assert_eq!(prober.next_step(), ProbeStep::Attempt);
    prober.observe(HttpResult::Response { status: 200 });
    assert_eq!(prober.state(), ProbeState::Ready);
    assert_eq!(prober.next_step(), ProbeStep::Finished(ProbeOutcome::Ready));
}

#[test]
fn http_prober_retries_on_transport_errors() {
    let mut prober = HttpProber::new(health());
    prober.observe(HttpResult::TransportError);
    assert_eq!(prober.state(), ProbeState::Retrying);
    prober.observe(HttpResult::TransportError);
    assert_eq!(prober.next_step(), ProbeStep::Attempt);
    prober.observe(HttpResult::Response { status: 204 });
    assert_eq!(prober.next_step(), ProbeStep::Finished(ProbeOutcome::Ready));
}

#[test]
fn http_prober_retries_on_every_status_outside_2xx() {
    for status in [100u16, 199, 300, 301, 302, 304, 400, 401, 404, 418, 500, 502, 503, 599] {
        let mut prober = HttpProber::new(health());
        prober.observe(HttpResult::Response { status });
        assert_eq!(prober.state(), ProbeState::Retrying, "status {}", status);
        assert_eq!(prober.next_step(), ProbeStep::Attempt, "status {}", status);
    }
}

#[test]
fn http_prober_succeeds_on_every_2xx_status() {
    for status in [200u16, 201, 202, 204, 206, 250, 299] {
        let mut prober = HttpProber::new(health());
        prober.observe(HttpResult::Response { status });
        assert_eq!(prober.state(), ProbeState::Ready, "status {}", status);
        assert_eq!(
            prober.next_step(),
            ProbeStep::Finished(ProbeOutcome::Ready),
            "status {}",
            status
        );
    }
}

#[test]
fn a_task_fits_its_target() {
    let socket = ProbeTask::new(ProbeTarget::Tcp(unbound()));
    assert!(matches!(&socket, ProbeTask::Socket(prober) if prober.address() == unbound()));
    assert_eq!(socket.state(), ProbeState::Pending);
    assert_eq!(socket.next_step(), ProbeStep::Attempt);

    let http = ProbeTask::new(ProbeTarget::Http(health()));
    assert!(
        matches!(&http, ProbeTask::Http(prober) if prober.url().as_str() == "http://localhost:8080/health")
    );
    assert_eq!(http.state(), ProbeState::Pending);
    assert_eq!(http.next_step(), ProbeStep::Attempt);
}

#[test]
fn a_task_follows_its_prober() {
    let mut task = ProbeTask::new(ProbeTarget::Tcp(unbound()));
    if let ProbeTask::Socket(prober) = &mut task {
        prober.observe(ConnectResult::Failed);
    }
    assert_eq!(task.state(), ProbeState::Retrying);
    assert_eq!(task.next_step(), ProbeStep::Attempt);
    if let ProbeTask::Socket(prober) = &mut task {
        prober.observe(ConnectResult::Connected);
    }
    assert_eq!(task.state(), ProbeState::Ready);
    assert_eq!(task.next_step(), ProbeStep::Finished(ProbeOutcome::Ready));
}
