use rsh::directive::{Directive, FileOutputType, ParseError};
use rsh::line::{process_input, segments, split_pipes};

#[test]
fn parse_test() {
    let input = "cat cat_names.txt | sort";
    let dirs = process_input(input).unwrap();
    println!("{:?}", dirs);
    assert_eq!(dirs.len(), 2);
    assert_eq!(dirs[0].cmd, "cat");
    assert_eq!(dirs[0].args, vec![String::from("cat_names.txt")]);
    assert_eq!(dirs[1].cmd, "sort");
    assert!(dirs[1].args.is_empty());
}

#[test]
fn parse_redir() {
    let input = "sort < cat_names.txt > sorted.txt";
    let input2 = "sort > sorted.txt < cat_names.txt";

    let dir = process_input(input).unwrap();
    let dir2 = process_input(input2).unwrap();

    assert_eq!(dir[0].cmd, "sort");
    assert_eq!(dir[0].input_filename, Some(String::from("cat_names.txt")));
    assert_eq!(dir[0].output_filename, Some(String::from("sorted.txt")));
    assert_eq!(dir, dir2);
}

#[test]
fn plain_command_with_arguments() {
    let d = Directive::parse("cmd a b").unwrap();
    assert_eq!(d.cmd, "cmd");
    assert_eq!(d.args, vec![String::from("a"), String::from("b")]);
    assert_eq!(d.input_filename, None);
    assert_eq!(d.output_filename, None);
    assert_eq!(d.file_output_type, None);
}

#[test]
fn redirection_order_with_arguments() {
    let a = Directive::parse("grep -v x < in.txt >> out.txt").unwrap();
    let b = Directive::parse("grep -v x >> out.txt < in.txt").unwrap();
    assert_eq!(a, b);
    assert_eq!(a.args, vec![String::from("-v"), String::from("x")]);
    let c = Directive::parse("grep x -v < in.txt >> out.txt").unwrap();
    assert_ne!(a, c);
}

#[test]
fn append_and_truncate_modes() {
    let a = Directive::parse("cmd >> f").unwrap();
    assert_eq!(a.output_filename, Some(String::from("f")));
    assert_eq!(a.file_output_type, Some(FileOutputType::Append));
    let t = Directive::parse("cmd > f").unwrap();
    assert_eq!(t.output_filename, Some(String::from("f")));
    assert_eq!(t.file_output_type, Some(FileOutputType::Truncate));
}

#[test]
fn character_after_single_gt_starts_the_target() {
    let t = Directive::parse("cmd >f").unwrap();
    assert_eq!(t.output_filename, Some(String::from("f")));
    assert_eq!(t.file_output_type, Some(FileOutputType::Truncate));
    let a = Directive::parse("cmd >>f").unwrap();
    assert_eq!(a.output_filename, Some(String::from("f")));
    assert_eq!(a.file_output_type, Some(FileOutputType::Append));
    let n = Directive::parse("cmd<in>out").unwrap();
    assert_eq!(n.cmd, "cmd");
    assert_eq!(n.input_filename, Some(String::from("in")));
    assert_eq!(n.output_filename, Some(String::from("out")));
}

#[test]
fn two_inputs_rejected() {
    assert_eq!(Directive::parse("cmd < a < b").unwrap_err(), ParseError::TooManyInputs);
    assert!(Directive::from_str("cmd < a < b").is_none());
}

#[test]
fn two_outputs_rejected() {
    assert_eq!(Directive::parse("cmd > a >> b").unwrap_err(), ParseError::TooManyOutputs);
    assert_eq!(ParseError::TooManyOutputs.message(), "Too many output files defined");
}

#[test]
fn missing_command_rejected() {
    assert_eq!(Directive::parse("").unwrap_err(), ParseError::MissingCommand);
    assert_eq!(Directive::parse("    ").unwrap_err(), ParseError::MissingCommand);
    assert_eq!(Directive::parse("< >").unwrap_err(), ParseError::MissingCommand);
}

#[test]
fn first_token_is_always_the_command() {
    let d = Directive::parse("< a b").unwrap();
    assert_eq!(d.cmd, "a");
    assert_eq!(d.args, vec![String::from("b")]);
    assert_eq!(d.input_filename, None);
}

#[test]
fn output_mode_only_beside_a_target() {
    let d = Directive::parse("cmd >>").unwrap();
    assert_eq!(d.output_filename, None);
    assert_eq!(d.file_output_type, None);
}

#[test]
fn from_str_gives_the_stage() {
    let d = Directive::from_str("ls -l").unwrap();
    assert_eq!(d.cmd, "ls");
    assert_eq!(d.args, vec![String::from("-l")]);
}

#[test]
fn line_fails_when_any_segment_fails() {
    assert_eq!(process_input("ls | sort < a < b").unwrap_err(), ParseError::TooManyInputs);
    assert_eq!(process_input("ls | | wc").unwrap_err(), ParseError::MissingCommand);
}

#[test]
fn line_is_trimmed() {
    let d = process_input("  ls -l \n").unwrap();
    assert_eq!(d.len(), 1);
    assert_eq!(d[0].cmd, "ls");
    assert_eq!(d[0].args, vec![String::from("-l")]);
    let e = process_input("ls\u{a0}|\u{2003}wc\u{a0}").unwrap();
    assert_eq!(e[0].cmd, "ls");
    assert_eq!(e[1].cmd, "wc");
}

#[test]
fn segments_are_trimmed() {
    assert_eq!(segments("  ls -l | wc\n"), vec!["ls -l", "wc"]);
    assert_eq!(segments("a\u{a0}|\u{3000}b\u{b}"), vec!["a", "b"]);
    assert_eq!(segments("\t"), vec![""]);
}

#[test]
fn unicode_blanks_separate_tokens() {
    let d = Directive::parse("a\u{a0}b\u{2003}c\u{b}d").unwrap();
    assert_eq!(d.cmd, "a");
    assert_eq!(d.args, vec![String::from("b"), String::from("c"), String::from("d")]);
}

#[test]
fn lt_after_single_gt_is_an_operator() {
    assert_eq!(Directive::parse("><").unwrap_err(), ParseError::MissingCommand);
    let d = Directive::parse("cmd ><x").unwrap();
    assert_eq!(d.output_filename, None);
    assert_eq!(d.input_filename, Some(String::from("x")));
    assert_eq!(d.file_output_type, None);
    let e = Directive::parse("cmd >out<in").unwrap();
    assert_eq!(e.output_filename, Some(String::from("out")));
    assert_eq!(e.input_filename, Some(String::from("in")));
    assert_eq!(e.file_output_type, Some(FileOutputType::Truncate));
    assert_eq!(Directive::parse(&d.to_line()).unwrap(), d);
}

#[test]
fn split_on_every_bar() {
    assert_eq!(split_pipes("a|b | c"), vec!["a", "b ", " c"]);
    assert_eq!(split_pipes(""), vec![""]);
    assert_eq!(split_pipes("|"), vec!["", ""]);
}

#[test]
fn reparse_of_canonical_text() {
    let d = Directive::parse("sort  >>out.txt -r <in.txt").unwrap();
    let line = d.to_line();
    assert_eq!(line, "sort -r < in.txt >> out.txt");
    assert_eq!(Directive::parse(&line).unwrap(), d);
    let p = Directive::parse("cat a b").unwrap();
    assert_eq!(p.to_line(), "cat a b");
    assert_eq!(Directive::parse(&p.to_line()).unwrap(), p);
}
