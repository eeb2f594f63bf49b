use textstream::batch::Input;
use textstream::catr::{get_args, run, LineFormatter, Mode};
use textstream::driver::Emission;

fn strings(items: &[&str]) -> Vec<String> {
    items.iter().map(|s| s.to_string()).collect()
}

fn text(items: &[&str]) -> Input {
    Input::Lines { lines: strings(items), failure: None }
}

fn lines(items: &[&str]) -> Vec<Emission> {
    items.iter().map(|s| Emission::Line(s.to_string())).collect()
}

#[test]
fn plain_mode_echoes_every_line() {
    let config = get_args(strings(&["f"]), false, false);
    let input = ["one", "", "  two  ", "", "", "three\tx"];
    assert_eq!(run(&config, &vec![text(&input)]), lines(&input));
}

#[test]
fn plain_mode_of_an_empty_source_writes_nothing() {
    let config = get_args(strings(&["f"]), false, false);
    assert_eq!(run(&config, &vec![text(&[])]), vec![]);
}

#[test]
fn number_all_counts_blank_lines_too() {
    let config = get_args(strings(&["f"]), true, false);
    assert_eq!(
        run(&config, &vec![text(&["a", "", "b"])]),
        lines(&["     1\ta", "     2\t", "     3\tb"])
    );
}

#[test]
fn number_nonblank_skips_blank_lines() {
    let config = get_args(strings(&["f"]), false, true);
    assert_eq!(
        run(&config, &vec![text(&["a", "", "b"])]),
        lines(&["     1\ta", "", "     2\tb"])
    );
}

#[test]
fn number_nonblank_counts_lines_of_spaces() {
    let config = get_args(strings(&["f"]), false, true);
    assert_eq!(
        run(&config, &vec![text(&["", "", " ", "x", ""])]),
        lines(&["", "", "     1\t ", "     2\tx", ""])
    );
}

#[test]
fn numbering_goes_past_the_width_of_the_gutter() {
    let config = get_args(strings(&["f"]), true, false);
    let input: Vec<String> = (0..12).map(|i| format!("l{}", i)).collect();
    let written = run(&config, &vec![Input::Lines { lines: input.clone(), failure: None }]);
    assert_eq!(written.len(), 12);
    for (i, emission) in written.iter().enumerate() {
        assert_eq!(*emission, Emission::Line(format!("{:>6}\t{}", i + 1, input[i])));
    }
    assert_eq!(written[8], Emission::Line("     9\tl8".to_string()));
    assert_eq!(written[9], Emission::Line("    10\tl9".to_string()));
}

#[test]
fn the_counter_starts_again_with_each_source() {
    let config = get_args(strings(&["a", "b"]), true, false);
    assert_eq!(
        run(&config, &vec![text(&["x", "y"]), text(&["z"])]),
        lines(&["     1\tx", "     2\ty", "     1\tz"])
    );
    let config = get_args(strings(&["a", "b"]), false, true);
    assert_eq!(
        run(&config, &vec![text(&["x", "", "y"]), text(&["", "z"])]),
        lines(&["     1\tx", "", "     2\ty", "", "     1\tz"])
    );
}

#[test]
fn concatenation_writes_no_headers() {
    let config = get_args(strings(&["a", "b", "a"]), false, false);
    assert_eq!(
        run(&config, &vec![text(&["1"]), text(&["2"]), text(&["1"])]),
        lines(&["1", "2", "1"])
    );
}

#[test]
fn a_source_that_cannot_be_opened_is_reported_and_passed_over() {
    let config = get_args(strings(&["a", "missing", "b"]), false, false);
    let inputs = vec![
        text(&["1"]),
        Input::Unopenable("No such file or directory (os error 2)".to_string()),
        text(&["2", "3"]),
    ];
    assert_eq!(
        run(&config, &inputs),
        vec![
            Emission::Line("1".to_string()),
            Emission::Diagnostic("missing: No such file or directory (os error 2)".to_string()),
            Emission::Line("2".to_string()),
            Emission::Line("3".to_string()),
        ]
    );
}

#[test]
fn every_source_may_fail_to_open() {
    let config = get_args(strings(&["x", "y"]), true, false);
    let inputs = vec![Input::Unopenable("c1".to_string()), Input::Unopenable("c2".to_string())];
    assert_eq!(
        run(&config, &inputs),
        vec![
            Emission::Diagnostic("x: c1".to_string()),
            Emission::Diagnostic("y: c2".to_string()),
        ]
    );
}

#[test]
fn a_read_failure_ends_its_source_only() {
    let config = get_args(strings(&["a", "b"]), true, false);
    let inputs = vec![
        Input::Lines {
            lines: strings(&["1", "2"]),
            failure: Some("stream did not contain valid UTF-8".to_string()),
        },
        text(&["3"]),
    ];
    assert_eq!(
        run(&config, &inputs),
        vec![
            Emission::Line("     1\t1".to_string()),
            Emission::Line("     2\t2".to_string()),
            Emission::Diagnostic("a: stream did not contain valid UTF-8".to_string()),
            Emission::Line("     1\t3".to_string()),
        ]
    );
}

#[test]
fn without_a_file_name_the_standard_input_is_read() {
    let config = get_args(vec![], false, false);
    assert_eq!(config.files(), &strings(&["-"]));
    assert_eq!(config.mode(), Mode::Plain);
    assert_eq!(run(&config, &vec![text(&["typed"])]), lines(&["typed"]));
}

#[test]
fn the_flags_choose_the_mode() {
    assert_eq!(get_args(strings(&["f"]), false, false).mode(), Mode::Plain);
    assert_eq!(get_args(strings(&["f"]), true, false).mode(), Mode::NumberAll);
    assert_eq!(get_args(strings(&["f"]), false, true).mode(), Mode::NumberNonblank);
    assert_eq!(get_args(strings(&["f"]), true, true).mode(), Mode::NumberAll);
    assert_eq!(
        get_args(strings(&["b", "a", "b"]), false, false).files(),
        &strings(&["b", "a", "b"])
    );
}

#[test]
fn a_formatter_counts_what_it_numbers() {
    let mut formatter = LineFormatter::new(Mode::NumberNonblank);
    assert_eq!(formatter.count, 0);
    assert_eq!(formatter.format("a"), "     1\ta");
    assert_eq!(formatter.count, 1);
    assert_eq!(formatter.format(""), "");
    assert_eq!(formatter.count, 1);
    assert_eq!(formatter.format("b"), "     2\tb");
    assert_eq!(formatter.count, 2);

    let mut formatter = LineFormatter::new(Mode::NumberAll);
    assert_eq!(formatter.format(""), "     1\t");
    assert_eq!(formatter.format(""), "     2\t");
    assert_eq!(formatter.count, 2);

    let mut formatter = LineFormatter::new(Mode::Plain);
    assert_eq!(formatter.format("p"), "p");
    assert_eq!(formatter.count, 0);
}

#[test]
fn a_formatter_at_the_end_of_its_counter_takes_only_what_needs_no_index() {
    let formatter = LineFormatter { mode: Mode::NumberNonblank, count: usize::MAX };
    assert!(formatter.can_format(""));
    assert!(!formatter.can_format("x"));
    let formatter = LineFormatter { mode: Mode::NumberAll, count: usize::MAX };
    assert!(!formatter.can_format(""));
    let formatter = LineFormatter { mode: Mode::Plain, count: usize::MAX };
    assert!(formatter.can_format("x"));
    let mut formatter = LineFormatter { mode: Mode::NumberAll, count: usize::MAX - 1 };
    assert!(formatter.can_format("x"));
    assert_eq!(formatter.format("x"), format!("{}\tx", usize::MAX));
}
