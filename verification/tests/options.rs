use awc::options::{get_files, same_text, starts_with_dash, CliOptions};

fn args_of(items: &[&str]) -> Vec<String> {
    items.iter().map(|s| s.to_string()).collect()
}

#[test]
fn check_args() {
    let args = vec!["-b".to_string()];
    let options = CliOptions::check_args(&args);
    assert!(options.bytes);

    let args = vec!["-c".to_string()];
    let options = CliOptions::check_args(&args);
    assert!(options.chars);

    let args = vec!["-w".to_string()];
    let options = CliOptions::check_args(&args);
    assert!(options.words);

    let args = vec!["-l".to_string()];
    let options = CliOptions::check_args(&args);
    assert!(options.lines);

    let args = vec!["-L".to_string()];
    let options = CliOptions::check_args(&args);
    assert!(options.max_line);

    let args = vec!["-M".to_string()];
    let options = CliOptions::check_args(&args);
    assert!(options.min_line);

    let args = vec!["-bcwlLM".to_string()];
    let options = CliOptions::check_args(&args);
    assert!(options.bytes);
    assert!(options.chars);
    assert!(options.words);
    assert!(options.lines);
    assert!(options.max_line);
    assert!(options.min_line);

    let args = vec!["/var/log/syslog".to_string()];
    let options = CliOptions::check_args(&args);
    assert!(options.bytes);
    assert!(options.chars);
    assert!(options.words);
    assert!(options.lines);
    assert!(options.max_line);
    assert!(options.min_line);
}

#[test]
fn single_flag_sets_only_its_field() {
    let options = CliOptions::check_args(&args_of(&["-b"]));
    assert_eq!(
        options,
        CliOptions { bytes: true, ..CliOptions::default() }
    );
    let options = CliOptions::check_args(&args_of(&["-z"]));
    assert_eq!(
        options,
        CliOptions { zipped: true, ..CliOptions::default() }
    );
}

#[test]
fn long_flags_match_short_flags() {
    let pairs = [
        ("-b", "--bytes"),
        ("-c", "--chars"),
        ("-w", "--words"),
        ("-l", "--lines"),
        ("-z", "--zip"),
        ("-L", "--max-line-length"),
        ("-M", "--min-line-length"),
        ("-a", "--all"),
        ("-h", "--help"),
    ];
    for (short, long) in pairs {
        assert_eq!(
            CliOptions::check_args(&args_of(&[short])),
            CliOptions::check_args(&args_of(&[long]))
        );
    }
}

#[test]
fn no_arguments_request_nothing() {
    assert_eq!(CliOptions::check_args(&[]), CliOptions::default());
    assert_eq!(
        CliOptions::default(),
        CliOptions {
            bytes: false,
            chars: false,
            words: false,
            lines: false,
            max_line: false,
            min_line: false,
            zipped: false,
        }
    );
}

#[test]
fn all_flag_leaves_zipped_alone() {
    let options = CliOptions::check_args(&args_of(&["-a"]));
    assert!(options.bytes && options.chars && options.words);
    assert!(options.lines && options.max_line && options.min_line);
    assert!(!options.zipped);
    let options = CliOptions::check_args(&args_of(&["-z", "--all"]));
    assert!(options.zipped && options.bytes && options.min_line);
}

#[test]
fn help_changes_no_option() {
    assert_eq!(
        CliOptions::check_args(&args_of(&["-h", "--help"])),
        CliOptions::default()
    );
    assert!(CliOptions::wants_help(&args_of(&["-b", "--help"])));
    assert!(CliOptions::wants_help(&args_of(&["-h"])));
    assert!(!CliOptions::wants_help(&args_of(&["-b", "-help", "help"])));
    assert!(!CliOptions::wants_help(&[]));
}

#[test]
fn combined_flags_ignore_unknown_letters() {
    let options = CliOptions::check_args(&args_of(&["-xbyz"]));
    assert_eq!(
        options,
        CliOptions { bytes: true, zipped: true, ..CliOptions::default() }
    );
    let options = CliOptions::check_args(&args_of(&["--unknown"]));
    assert_eq!(
        options,
        CliOptions { words: true, ..CliOptions::default() }
    );
    assert_eq!(CliOptions::check_args(&args_of(&["-"])), CliOptions::default());
}

#[test]
fn empty_argument_is_no_flag() {
    let options = CliOptions::check_args(&args_of(&[""]));
    assert!(options.bytes && options.chars && options.words);
    assert!(options.lines && options.max_line && options.min_line);
}

#[test]
fn maybe_flags_sets_one_field() {
    let mut options = CliOptions::default();
    CliOptions::maybe_flags('L', &mut options);
    assert_eq!(
        options,
        CliOptions { max_line: true, ..CliOptions::default() }
    );
    CliOptions::maybe_flags('?', &mut options);
    assert_eq!(
        options,
        CliOptions { max_line: true, ..CliOptions::default() }
    );
}

#[test]
fn set_all_keeps_zipped() {
    let mut options = CliOptions { zipped: true, ..CliOptions::default() };
    options.set_all();
    assert_eq!(
        options,
        CliOptions {
            bytes: true,
            chars: true,
            words: true,
            lines: true,
            max_line: true,
            min_line: true,
            zipped: true,
        }
    );
}

#[test]
fn same_text_compares_contents() {
    assert!(same_text("--bytes", "--bytes"));
    assert!(!same_text("--bytes", "--byte"));
    assert!(!same_text("-b", "-c"));
    assert!(same_text("", ""));
    assert!(same_text("\u{3b1}\u{3b2}", "\u{3b1}\u{3b2}"));
    assert!(!same_text("\u{3b1}\u{3b2}", "\u{3b1}\u{3b3}"));
}

#[test]
fn starts_with_dash_looks_at_first_character() {
    assert!(starts_with_dash("-"));
    assert!(starts_with_dash("-b"));
    assert!(!starts_with_dash(""));
    assert!(!starts_with_dash("b-"));
}

#[test]
fn get_files_skips_program_name_and_flags() {
    let files = get_files(&args_of(&["awc", "-b", "a.txt", "--lines", "b.txt", "-"]));
    assert_eq!(files, vec!["a.txt".to_string(), "b.txt".to_string()]);
    assert_eq!(get_files(&args_of(&["awc"])), Vec::<String>::new());
    assert_eq!(get_files(&[]), Vec::<String>::new());
    assert_eq!(get_files(&args_of(&["-first", "x"])), vec!["x".to_string()]);
}
