use greeter::config::{parse_count, strategy, worker_count, BACKLOG, PORT};
use greeter::parking::Kind;

#[test]
fn each_mode_has_its_strategy() {
    assert_eq!(strategy(None), Some(Kind::Epoll));
    assert_eq!(strategy(Some("epoll".to_string())), Some(Kind::Epoll));
    assert_eq!(strategy(Some("async".to_string())), Some(Kind::Async));
    assert_eq!(strategy(Some("uringpoll".to_string())), Some(Kind::UringPoll));
    assert_eq!(strategy(Some("hybrid".to_string())), Some(Kind::Hybrid));
    assert_eq!(strategy(Some("Epoll".to_string())), None);
    assert_eq!(strategy(Some("".to_string())), None);
}

#[test]
fn numbers_are_read_as_std_reads_them() {
    let texts = [
        "0", "7", "+7", "007", "", "+", "-1", "1 ", " 1", "1_0", "12a", "++1", "18446744073709551615",
        "18446744073709551616", "99999999999999999999999x", "\u{0663}",
    ];
    for text in texts {
        assert_eq!(parse_count(text), text.parse::<usize>().ok(), "{}", text);
    }
}

#[test]
fn the_environment_can_set_the_number_of_workers() {
    assert_eq!(worker_count(Some("3".to_string()), 8), 3);
    assert_eq!(worker_count(Some("0".to_string()), 8), 0);
    assert_eq!(worker_count(Some("many".to_string()), 8), 8);
    assert_eq!(worker_count(None, 8), 8);
}

#[test]
fn the_listener_has_a_fixed_port() {
    assert_eq!(PORT, 50051);
    assert_eq!(BACKLOG, 8192);
}
