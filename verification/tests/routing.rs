use std::cell::Cell;
use std::rc::Rc;

use topic_dispatch::app::App;
use topic_dispatch::pattern::is_admitted_pattern;
use topic_dispatch::poll::Async;
use topic_dispatch::service::{AppService, Dispatch};

type Default = fn(String) -> String;

fn no_route(message: String) -> String {
    format!("no route: {}", message)
}

/// A service over `patterns`, whose handler at index `i` is the number `i * 10`.
fn service_over(patterns: &[&str]) -> AppService<usize, Default> {
    let mut app: App<usize, Default> = App::new(no_route);
    for (i, pattern) in patterns.iter().enumerate() {
        assert!(is_admitted_pattern(pattern));
        app = app.resource(pattern, i);
    }
    let factory = app.into_new_service();
    let mut fut = factory.new_service::<usize>();
    for (i, made_by) in factory.handlers().iter().enumerate() {
        assert_eq!(*made_by, i);
        let settled: Result<(), String> = fut.settle(i, Ok(Async::Ready(made_by * 10)));
        assert_eq!(settled, Ok(()));
    }
    match fut.poll() {
        Async::Ready(service) => service,
        Async::NotReady => panic!("every handler was built"),
    }
}

#[test]
fn pattern_at_position_routes_to_handler_at_position() {
    let patterns = ["sensors/temp", "sensors/humidity", "alerts", "", "a/+"];
    let mut service = service_over(&patterns);
    assert_eq!(service.len(), patterns.len());
    for (i, pattern) in patterns.iter().enumerate() {
        let outcome: Dispatch<String, String> = service.call(pattern, format!("m{}", i));
        assert_eq!(outcome, Dispatch::Forward(i, format!("m{}", i)));
        assert_eq!(*service.handler_mut(i), i * 10);
    }
}

#[test]
fn first_registration_wins() {
    let service = service_over(&["a/b", "a/+"]);
    let outcome: Dispatch<String, String> = service.call("a/b", String::from("payload"));
    assert_eq!(outcome, Dispatch::Forward(0, String::from("payload")));
    let outcome: Dispatch<String, String> = service.call("a/+", String::from("payload"));
    assert_eq!(outcome, Dispatch::Forward(1, String::from("payload")));
}

#[test]
fn repeated_pattern_goes_to_the_older_registration() {
    let service = service_over(&["x", "a/b", "a/b"]);
    let outcome: Dispatch<String, String> = service.call("a/b", String::from("p"));
    assert_eq!(outcome, Dispatch::Forward(1, String::from("p")));
}

#[test]
fn literal_pattern_is_no_wildcard() {
    let service = service_over(&["a/+", "#"]);
    let outcome: Dispatch<String, String> = service.call("a/b", String::from("p"));
    assert_eq!(outcome, Dispatch::Rejected(String::from("no route: p")));
}

#[test]
fn unmatched_topic_runs_the_default_handler_once() {
    let calls = Rc::new(Cell::new(0usize));
    let seen = calls.clone();
    let app = App::new(move |message: String| {
        seen.set(seen.get() + 1);
        format!("rejected <{}>", message)
    });
    let app = app.resource("a/b", 0usize).resource("c", 1usize);
    let factory = app.into_new_service();
    let mut fut = factory.new_service::<&str>();
    assert_eq!(fut.settle::<String>(1, Ok(Async::Ready("one"))), Ok(()));
    assert_eq!(fut.settle::<String>(0, Ok(Async::Ready("zero"))), Ok(()));
    let service = match fut.poll() {
        Async::Ready(service) => service,
        Async::NotReady => panic!("every handler was built"),
    };
    let outcome: Dispatch<String, String> = service.call("a/c", String::from("hello"));
    assert_eq!(outcome, Dispatch::Rejected(String::from("rejected <hello>")));
    assert_eq!(calls.get(), 1);
    let outcome: Dispatch<String, String> = service.call("a/b", String::from("hello"));
    assert_eq!(outcome, Dispatch::Forward(0, String::from("hello")));
    assert_eq!(calls.get(), 1);
}

#[test]
fn no_registration_means_default_handler() {
    let service = service_over(&[]);
    assert_eq!(service.len(), 0);
    let outcome: Dispatch<String, String> = service.call("anything", String::from("m"));
    assert_eq!(outcome, Dispatch::Rejected(String::from("no route: m")));
}

#[test]
fn dispatch_names_one_handler_and_leaves_the_others() {
    let mut service = service_over(&["p0", "p1", "p2"]);
    let outcome: Dispatch<String, String> = service.call("p1", String::from("m"));
    let idx = match outcome {
        Dispatch::Forward(idx, message) => {
            assert_eq!(message, "m");
            idx
        }
        Dispatch::Rejected(_) => panic!("p1 is registered"),
    };
    assert_eq!(idx, 1);
    *service.handler_mut(idx) += 1;
    assert_eq!(*service.handler_mut(0), 0);
    assert_eq!(*service.handler_mut(1), 11);
    assert_eq!(*service.handler_mut(2), 20);
}

#[test]
fn sessions_share_the_table_and_own_their_handlers() {
    let app: App<usize, Default> = App::new(no_route);
    let factory = app.resource("t", 7).into_new_service();
    let mut first = factory.new_service::<String>();
    let mut second = factory.new_service::<String>();
    assert_eq!(first.settle::<String>(0, Ok(Async::Ready(String::from("first")))), Ok(()));
    assert_eq!(second.settle::<String>(0, Ok(Async::Ready(String::from("second")))), Ok(()));
    let (mut a, mut b) = match (first.poll(), second.poll()) {
        (Async::Ready(a), Async::Ready(b)) => (a, b),
        _ => panic!("both sessions were built"),
    };
    a.handler_mut(0).push('!');
    assert_eq!(a.handler_mut(0).as_str(), "first!");
    assert_eq!(b.handler_mut(0).as_str(), "second");
    let outcome: Dispatch<String, String> = b.call("t", String::from("m"));
    assert_eq!(outcome, Dispatch::Forward(0, String::from("m")));
}

#[test]
fn literal_patterns_are_admitted() {
    assert!(is_admitted_pattern("a/b"));
    assert!(is_admitted_pattern(""));
    assert!(is_admitted_pattern("a/+"));
    assert!(is_admitted_pattern("*a"));
    assert!(is_admitted_pattern("a*b}"));
    assert!(is_admitted_pattern("sujet/\u{e9}t\u{e9}"));
    assert!(is_admitted_pattern(&"x".repeat(3000)));
    assert!(!is_admitted_pattern("a/*"));
    assert!(!is_admitted_pattern("*"));
}

#[test]
fn patterns_with_capture_segments_are_admitted() {
    assert!(is_admitted_pattern("a/{x}/{y}"));
    assert!(is_admitted_pattern("{a}{b}"));
    assert!(is_admitted_pattern("{a}*{b}"));
    assert!(is_admitted_pattern("{id}/{idx}/{i}"));
    let sixteen: String = (0..16).map(|i| format!("/{{s{}}}", i)).collect();
    assert!(is_admitted_pattern(&sixteen));
    let seventeen: String = (0..17).map(|i| format!("/{{s{}}}", i)).collect();
    assert!(!is_admitted_pattern(&seventeen));
    assert!(is_admitted_pattern("a/{name}"));
    assert!(is_admitted_pattern("{x}"));
    assert!(is_admitted_pattern("{_x9}/tail"));
    assert!(is_admitted_pattern("files/{rest}*"));
    assert!(is_admitted_pattern("a}/{B_2}/c*"));
    let long = format!("{}{{id}}", "x".repeat(1020));
    assert!(is_admitted_pattern(&long));
    let too_long = format!("{}{{id}}", "x".repeat(1021));
    assert!(!is_admitted_pattern(&too_long));
}

#[test]
fn patterns_that_may_not_compile_are_refused() {
    assert!(!is_admitted_pattern("{"));
    assert!(!is_admitted_pattern("{}"));
    assert!(!is_admitted_pattern("a/{name"));
    assert!(!is_admitted_pattern("a/{9x}"));
    assert!(!is_admitted_pattern("a/{x:[0-9]+}"));
    assert!(!is_admitted_pattern("a/{x}/{x}"));
    assert!(!is_admitted_pattern("{ab}/{c}/{ab}"));
    assert!(!is_admitted_pattern("a/{x}/{y"));
    assert!(!is_admitted_pattern("a/{x}/{"));
    assert!(!is_admitted_pattern("a/{{x}}"));
    assert!(!is_admitted_pattern("a/{x y}"));
    assert!(!is_admitted_pattern("a/{\u{e9}}"));
}

#[test]
fn capture_segment_takes_one_level() {
    let service = service_over(&["user/{id}", "user/{id}/inbox", "files/{rest}*"]);
    let outcome: Dispatch<String, String> = service.call("user/42", String::from("m"));
    assert_eq!(outcome, Dispatch::Forward(0, String::from("m")));
    let outcome: Dispatch<String, String> = service.call("user/42/inbox", String::from("m"));
    assert_eq!(outcome, Dispatch::Forward(1, String::from("m")));
    let outcome: Dispatch<String, String> = service.call("files/a/b/c", String::from("m"));
    assert_eq!(outcome, Dispatch::Forward(2, String::from("m")));
    let outcome: Dispatch<String, String> = service.call("user/42/outbox", String::from("m"));
    assert_eq!(outcome, Dispatch::Rejected(String::from("no route: m")));
    let outcome: Dispatch<String, String> = service.call("user/", String::from("m"));
    assert_eq!(outcome, Dispatch::Rejected(String::from("no route: m")));
}

#[test]
fn several_capture_segments_take_one_level_each() {
    let service = service_over(&["{tenant}/dev/{device}/state", "{tenant}/{kind}/{device}/{leaf}"]);
    let outcome: Dispatch<String, String> = service.call("acme/dev/d1/state", String::from("m"));
    assert_eq!(outcome, Dispatch::Forward(0, String::from("m")));
    let outcome: Dispatch<String, String> = service.call("acme/grp/d1/state", String::from("m"));
    assert_eq!(outcome, Dispatch::Forward(1, String::from("m")));
    let outcome: Dispatch<String, String> = service.call("acme/dev/d1", String::from("m"));
    assert_eq!(outcome, Dispatch::Rejected(String::from("no route: m")));
    let sixteen: String = (0..16).map(|i| format!("/{{s{}}}", i)).collect();
    let service = service_over(&[sixteen.as_str()]);
    let topic: String = (0..16).map(|i| format!("/v{}", i)).collect();
    let outcome: Dispatch<String, String> = service.call(&topic, String::from("m"));
    assert_eq!(outcome, Dispatch::Forward(0, String::from("m")));
}

#[test]
fn older_registration_wins_where_two_patterns_accept() {
    let service = service_over(&["user/{id}", "user/admin"]);
    let outcome: Dispatch<String, String> = service.call("user/admin", String::from("m"));
    assert_eq!(outcome, Dispatch::Forward(0, String::from("m")));
    let service = service_over(&["user/admin", "user/{id}"]);
    let outcome: Dispatch<String, String> = service.call("user/admin", String::from("m"));
    assert_eq!(outcome, Dispatch::Forward(0, String::from("m")));
    let outcome: Dispatch<String, String> = service.call("user/bob", String::from("m"));
    assert_eq!(outcome, Dispatch::Forward(1, String::from("m")));
}

#[test]
fn escaped_text_around_a_segment_is_compared_as_text() {
    let service = service_over(&["a.b(c)/{x}/+$"]);
    let outcome: Dispatch<String, String> = service.call("a.b(c)/v/+$", String::from("m"));
    assert_eq!(outcome, Dispatch::Forward(0, String::from("m")));
    let outcome: Dispatch<String, String> = service.call("aXb(c)/v/+$", String::from("m"));
    assert_eq!(outcome, Dispatch::Rejected(String::from("no route: m")));
}

#[test]
fn topics_beyond_ascii_are_compared_whole() {
    let service = service_over(&["sujet/\u{e9}t\u{e9}"]);
    let outcome: Dispatch<String, String> =
        service.call("sujet/\u{e9}t\u{e9}", String::from("m"));
    assert_eq!(outcome, Dispatch::Forward(0, String::from("m")));
    let outcome: Dispatch<String, String> = service.call("sujet/\u{e9}t", String::from("m"));
    assert_eq!(outcome, Dispatch::Rejected(String::from("no route: m")));
}

#[test]
fn longest_pattern_with_segments_is_compiled_and_matched() {
    let segments: String = (0..16).map(|i| format!("/{{s{}}}", i)).collect();
    let used = segments.chars().count();
    let pattern = format!("{}{}", "\u{1D11E}".repeat(1024 - used), segments);
    assert_eq!(pattern.chars().count(), 1024);
    assert!(is_admitted_pattern(&pattern));
    let service = service_over(&[pattern.as_str(), "other"]);
    let values: String = (0..16).map(|i| format!("/v{}", i)).collect();
    let topic = format!("{}{}", "\u{1D11E}".repeat(1024 - used), values);
    let outcome: Dispatch<String, String> = service.call(&topic, String::from("m"));
    assert_eq!(outcome, Dispatch::Forward(0, String::from("m")));
    let outcome: Dispatch<String, String> = service.call("other", String::from("m"));
    assert_eq!(outcome, Dispatch::Forward(1, String::from("m")));
    let long_topic = format!("{}/tail", "x".repeat(70000));
    let outcome: Dispatch<String, String> = service.call(&long_topic, String::from("m"));
    assert_eq!(outcome, Dispatch::Rejected(String::from("no route: m")));
}

#[test]
fn topic_longer_than_the_path_offsets_is_still_matched() {
    let service = service_over(&["{head}/tail"]);
    let long_topic = format!("{}/tail", "x".repeat(70000));
    let outcome: Dispatch<String, String> = service.call(&long_topic, String::from("m"));
    assert_eq!(outcome, Dispatch::Forward(0, String::from("m")));
}
