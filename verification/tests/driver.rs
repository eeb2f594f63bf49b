use textstream::batch::{check_inputs, run_batch, Input};
use textstream::catr::Mode;
use textstream::driver::{Driver, Emission, Event, Policy, Request};
use textstream::headr::Limit;

fn strings(items: &[&str]) -> Vec<String> {
    items.iter().map(|s| s.to_string()).collect()
}

#[test]
fn the_driver_asks_for_each_source_in_turn() {
    let mut driver = Driver::new(strings(&["a", "b"]), Policy::Concatenate(Mode::NumberAll));
    assert_eq!(driver.request(), Request::Open);
    assert_eq!(driver.position(), 0);
    assert_eq!(driver.current_name(), Some("a"));
    assert_eq!(driver.step(Event::Opened), vec![]);
    assert_eq!(driver.request(), Request::ReadLine);
    assert_eq!(
        driver.step(Event::Line("x".to_string())),
        vec![Emission::Line("     1\tx".to_string())]
    );
    assert_eq!(driver.request(), Request::ReadLine);
    assert_eq!(driver.step(Event::EndOfInput), vec![]);
    assert_eq!(driver.request(), Request::Open);
    assert_eq!(driver.position(), 1);
    assert_eq!(driver.current_name(), Some("b"));
    assert_eq!(
        driver.step(Event::OpenFailed("denied".to_string())),
        vec![Emission::Diagnostic("b: denied".to_string())]
    );
    assert_eq!(driver.request(), Request::Finished);
    assert_eq!(driver.position(), 2);
    assert_eq!(driver.current_name(), None);
}

#[test]
fn the_driver_stops_reading_at_the_line_limit() {
    let mut driver = Driver::new(strings(&["a", "b"]), Policy::Head(Limit::Lines(2)));
    assert_eq!(driver.step(Event::Opened), vec![Emission::Line("==> a <==".to_string())]);
    assert_eq!(driver.request(), Request::ReadLine);
    assert_eq!(driver.step(Event::Line("1".to_string())), vec![Emission::Line("1".to_string())]);
    assert_eq!(driver.request(), Request::ReadLine);
    assert_eq!(driver.step(Event::Line("2".to_string())), vec![Emission::Line("2".to_string())]);
    assert_eq!(driver.request(), Request::Open);
    assert_eq!(driver.current_name(), Some("b"));
}

#[test]
fn the_driver_asks_for_the_bytes_that_are_left() {
    let mut driver = Driver::new(strings(&["a"]), Policy::Head(Limit::Bytes(5)));
    assert_eq!(driver.step(Event::Opened), vec![]);
    assert_eq!(driver.request(), Request::ReadBytes(5));
    assert_eq!(
        driver.step(Event::Chunk(b"ab".to_vec())),
        vec![Emission::Bytes(b"ab".to_vec())]
    );
    assert_eq!(driver.request(), Request::ReadBytes(3));
    assert_eq!(driver.step(Event::Chunk(b"c".to_vec())), vec![Emission::Bytes(b"c".to_vec())]);
    assert_eq!(driver.request(), Request::ReadBytes(2));
    assert_eq!(
        driver.step(Event::Chunk(b"de".to_vec())),
        vec![Emission::Bytes(b"de".to_vec())]
    );
    assert_eq!(driver.request(), Request::Finished);
}

#[test]
fn a_chunk_longer_than_what_is_left_is_cut() {
    let mut driver = Driver::new(strings(&["a"]), Policy::Head(Limit::Bytes(3)));
    driver.step(Event::Opened);
    assert_eq!(
        driver.step(Event::Chunk(b"abcdef".to_vec())),
        vec![Emission::Bytes(b"abc".to_vec())]
    );
    assert_eq!(driver.request(), Request::Finished);
}

#[test]
fn a_limit_of_nothing_reads_nothing() {
    let mut driver = Driver::new(strings(&["a", "b"]), Policy::Head(Limit::Lines(0)));
    assert_eq!(driver.step(Event::Opened), vec![Emission::Line("==> a <==".to_string())]);
    assert_eq!(driver.request(), Request::Open);
    assert_eq!(driver.position(), 1);
    let written = run_batch(
        &strings(&["a"]),
        Policy::Head(Limit::Bytes(0)),
        &vec![Input::Bytes { bytes: b"abc".to_vec(), failure: None }],
    );
    assert_eq!(written, vec![]);
}

#[test]
fn the_driver_accepts_what_answers_its_request() {
    let mut driver = Driver::new(strings(&["a"]), Policy::Concatenate(Mode::Plain));
    assert!(driver.accepts(&Event::Opened));
    assert!(driver.accepts(&Event::OpenFailed("x".to_string())));
    assert!(!driver.accepts(&Event::Line("x".to_string())));
    assert!(!driver.accepts(&Event::Chunk(vec![1])));
    assert!(!driver.accepts(&Event::EndOfInput));
    assert!(!driver.accepts(&Event::ReadFailed("x".to_string())));
    driver.step(Event::Opened);
    assert!(!driver.accepts(&Event::Opened));
    assert!(!driver.accepts(&Event::OpenFailed("x".to_string())));
    assert!(driver.accepts(&Event::Line("x".to_string())));
    assert!(!driver.accepts(&Event::Chunk(vec![1])));
    assert!(driver.accepts(&Event::EndOfInput));
    assert!(driver.accepts(&Event::ReadFailed("x".to_string())));
    driver.step(Event::ReadFailed("x".to_string()));
    assert_eq!(driver.request(), Request::Finished);
    assert!(!driver.accepts(&Event::Opened));
    assert!(!driver.accepts(&Event::EndOfInput));
}

#[test]
fn bytes_are_accepted_where_bytes_are_read() {
    let mut driver = Driver::new(strings(&["a"]), Policy::Head(Limit::Bytes(2)));
    driver.step(Event::Opened);
    assert!(driver.accepts(&Event::Chunk(vec![1])));
    assert!(!driver.accepts(&Event::Chunk(vec![])));
    assert!(!driver.accepts(&Event::Line("x".to_string())));
    assert!(driver.accepts(&Event::EndOfInput));
    let mut driver = Driver::new(strings(&["a"]), Policy::Head(Limit::Lines(2)));
    driver.step(Event::Opened);
    assert!(!driver.accepts(&Event::Chunk(vec![1])));
    assert!(driver.accepts(&Event::Line("x".to_string())));
}

#[test]
fn an_empty_file_list_is_finished_at_once() {
    let driver = Driver::new(vec![], Policy::Concatenate(Mode::Plain));
    assert_eq!(driver.request(), Request::Finished);
    assert_eq!(run_batch(&vec![], Policy::Concatenate(Mode::Plain), &vec![]), vec![]);
}

#[test]
fn a_run_in_memory_is_the_driver_driven() {
    let files = strings(&["a", "b", "c"]);
    let inputs = vec![
        Input::Lines { lines: strings(&["1", "", "2"]), failure: None },
        Input::Unopenable("gone".to_string()),
        Input::Lines { lines: strings(&["", "3"]), failure: Some("cut".to_string()) },
    ];
    let written = run_batch(&files, Policy::Concatenate(Mode::NumberNonblank), &inputs);
    let mut driver = Driver::new(files.clone(), Policy::Concatenate(Mode::NumberNonblank));
    let mut by_hand = Vec::new();
    by_hand.extend(driver.step(Event::Opened));
    by_hand.extend(driver.step(Event::Line("1".to_string())));
    by_hand.extend(driver.step(Event::Line("".to_string())));
    by_hand.extend(driver.step(Event::Line("2".to_string())));
    by_hand.extend(driver.step(Event::EndOfInput));
    by_hand.extend(driver.step(Event::OpenFailed("gone".to_string())));
    by_hand.extend(driver.step(Event::Opened));
    by_hand.extend(driver.step(Event::Line("".to_string())));
    by_hand.extend(driver.step(Event::Line("3".to_string())));
    by_hand.extend(driver.step(Event::ReadFailed("cut".to_string())));
    assert_eq!(driver.request(), Request::Finished);
    assert_eq!(written, by_hand);
    assert_eq!(
        written,
        vec![
            Emission::Line("     1\t1".to_string()),
            Emission::Line("".to_string()),
            Emission::Line("     2\t2".to_string()),
            Emission::Diagnostic("b: gone".to_string()),
            Emission::Line("".to_string()),
            Emission::Line("     1\t3".to_string()),
            Emission::Diagnostic("c: cut".to_string()),
        ]
    );
}

#[test]
fn inputs_fit_where_they_hold_what_is_read() {
    let files = strings(&["a", "b"]);
    let text = || Input::Lines { lines: strings(&["x"]), failure: None };
    let raw = || Input::Bytes { bytes: vec![1, 2], failure: None };
    let gone = || Input::Unopenable("gone".to_string());
    let plain = Policy::Concatenate(Mode::Plain);
    assert!(check_inputs(plain, &files, &vec![text(), text()]));
    assert!(check_inputs(plain, &files, &vec![gone(), text()]));
    assert!(!check_inputs(plain, &files, &vec![text()]));
    assert!(!check_inputs(plain, &files, &vec![text(), text(), text()]));
    assert!(!check_inputs(plain, &files, &vec![text(), raw()]));
    assert!(check_inputs(Policy::Head(Limit::Lines(1)), &files, &vec![text(), gone()]));
    assert!(!check_inputs(Policy::Head(Limit::Lines(1)), &files, &vec![raw(), text()]));
    assert!(check_inputs(Policy::Head(Limit::Bytes(1)), &files, &vec![raw(), gone()]));
    assert!(!check_inputs(Policy::Head(Limit::Bytes(1)), &files, &vec![raw(), text()]));
    assert!(check_inputs(plain, &vec![], &vec![]));
}
