use rsh::built_ins::{built_in, exit_term, help, BuiltIn};
use rsh::execution::{
    conclude, find_fault, handle_directives, plan_stage, resume, Action, Event, Exit, Launch,
    Misplaced, Outcome, Phase, Sink, Source,
};
use rsh::directive::FileOutputType;
use rsh::line::process_input;
use rsh::prompt::get_face;

fn finished(a: Action) -> Outcome {
    match a {
        Action::Finish(o) => o,
        other => panic!("expected an outcome, got {:?}", other),
    }
}

fn launched(a: &Action) -> Launch {
    match a {
        Action::Launch(l) => *l,
        other => panic!("expected a launch, got {:?}", other),
    }
}

#[test]
fn echo_hi_pipe_cat() {
    let ds = process_input("echo hi | cat").unwrap();
    let (p, a) = handle_directives(&ds);
    assert_eq!(p, Phase::Launching(0));
    assert_eq!(
        launched(&a),
        Launch { stage: 0, stdin: Source::Inherit, stdout: Sink::NextStage }
    );
    let (p, a) = resume(&ds, p, Event::Launched);
    assert_eq!(p, Phase::Launching(1));
    assert_eq!(
        launched(&a),
        Launch { stage: 1, stdin: Source::PreviousStage, stdout: Sink::Capture }
    );
    let (p, a) = resume(&ds, p, Event::Launched);
    assert_eq!(p, Phase::Waiting);
    assert!(matches!(a, Action::Wait));
    let exit = Exit {
        stdout: String::from("hi\n"),
        stderr: vec![String::new(), String::new()],
        success: true,
    };
    let (p, a) = resume(&ds, p, Event::Exited(exit));
    assert_eq!(p, Phase::Done);
    let o = finished(a);
    assert!(o.continue_session);
    assert!(o.succeeded);
    assert_eq!(o.output, "hi\n");
    assert_eq!(o.message, None);
}

#[test]
fn cd_to_missing_directory() {
    let ds = process_input("cd /nonexistent").unwrap();
    let (p, a) = handle_directives(&ds);
    assert_eq!(p, Phase::BuiltIn);
    assert!(matches!(a, Action::ChangeDirectory));
    let err = String::from("No such file or directory (os error 2)");
    let (p, a) = resume(&ds, p, Event::BuiltInDone(Err(err.clone())));
    assert_eq!(p, Phase::Done);
    let o = finished(a);
    assert!(o.continue_session);
    assert!(!o.succeeded);
    assert_eq!(o.message, Some(err));
}

#[test]
fn cd_success() {
    let ds = process_input("cd /tmp").unwrap();
    let (p, _) = handle_directives(&ds);
    let (_, a) = resume(&ds, p, Event::BuiltInDone(Ok(())));
    let o = finished(a);
    assert!(o.continue_session && o.succeeded);
}

#[test]
fn cd_needs_one_argument() {
    let ds = process_input("cd a b").unwrap();
    let (p, a) = handle_directives(&ds);
    assert_eq!(p, Phase::Done);
    let o = finished(a);
    assert!(!o.succeeded);
    assert_eq!(o.message, Some(String::from("Invalid syntax")));
}

#[test]
fn exit_ends_session() {
    let ds = process_input("exit").unwrap();
    let (p, a) = handle_directives(&ds);
    assert_eq!(p, Phase::Done);
    let o = finished(a);
    assert!(!o.continue_session);
    let e = exit_term();
    assert!(!e.continue_session && e.succeeded);
}

#[test]
fn built_ins_are_matched_exactly() {
    assert_eq!(built_in(&String::from("cd")), Some(BuiltIn::ChangeDirectory));
    assert_eq!(built_in(&String::from("view")), Some(BuiltIn::ViewDirectives));
    assert_eq!(built_in(&String::from("history")), Some(BuiltIn::ViewHistory));
    assert_eq!(built_in(&String::from("help")), Some(BuiltIn::Help));
    assert_eq!(built_in(&String::from("Exit")), None);
    assert_eq!(built_in(&String::from("cdx")), None);
}

#[test]
fn view_and_history_go_to_the_caller() {
    let ds = process_input("view | ls > x").unwrap();
    let (p, a) = handle_directives(&ds);
    assert_eq!(p, Phase::BuiltIn);
    assert!(matches!(a, Action::ShowDirectives));
    let ds = process_input("history").unwrap();
    let (_, a) = handle_directives(&ds);
    assert!(matches!(a, Action::ShowHistory));
}

#[test]
fn help_lists_built_ins() {
    let ds = process_input("help").unwrap();
    let (_, a) = handle_directives(&ds);
    let o = finished(a);
    assert!(o.output.contains("cd view exit history help"));
    assert_eq!(help().output, o.output);
}

#[test]
fn misplaced_output_rejected() {
    let ds = process_input("a | b > f | c").unwrap();
    assert_eq!(find_fault(&ds), Some(Misplaced::OutputBeforeLast));
    let (p, a) = handle_directives(&ds);
    assert_eq!(p, Phase::Done);
    let o = finished(a);
    assert!(!o.succeeded && o.continue_session);
    assert_eq!(o.message, Some(String::from("Specified output before the final pipe")));
}

#[test]
fn misplaced_input_rejected() {
    let ds = process_input("a | b < f").unwrap();
    let o = finished(handle_directives(&ds).1);
    assert_eq!(o.message, Some(String::from("Input specified after the first pipe")));
}

#[test]
fn file_redirections_planned() {
    let ds = process_input("sort < a >> b").unwrap();
    assert_eq!(
        plan_stage(&ds, 0),
        Launch { stage: 0, stdin: Source::InputFile, stdout: Sink::OutputFile(FileOutputType::Append) }
    );
    let ds = process_input("cat < a | sort > b").unwrap();
    assert_eq!(find_fault(&ds), None);
    assert_eq!(
        plan_stage(&ds, 1),
        Launch { stage: 1, stdin: Source::PreviousStage, stdout: Sink::OutputFile(FileOutputType::Truncate) }
    );
}

#[test]
fn middle_stderr_fails_pipeline() {
    let ds = process_input("a | b | c").unwrap();
    let exit = Exit {
        stdout: String::from("out"),
        stderr: vec![String::new(), String::from("warning"), String::from("later")],
        success: true,
    };
    let (p, a) = resume(&ds, Phase::Waiting, Event::Exited(exit));
    assert_eq!(p, Phase::Done);
    let o = finished(a);
    assert!(!o.succeeded);
    assert_eq!(o.output, "");
    assert_eq!(o.message, Some(String::from("warning\nlater")));
}

#[test]
fn nonzero_exit_is_silent_failure() {
    let o = conclude(Exit {
        stdout: String::from("partial"),
        stderr: vec![String::new()],
        success: false,
    });
    assert!(!o.succeeded && o.continue_session);
    assert_eq!(o.message, None);
    assert_eq!(o.output, "partial");
}

#[test]
fn launch_failures_end_the_run() {
    let ds = process_input("a | b").unwrap();
    let o = finished(resume(&ds, Phase::Launching(0), Event::InputUnavailable).1);
    assert_eq!(o.message, Some(String::from("Unable to open input file")));
    let o = finished(resume(&ds, Phase::Launching(1), Event::OutputUnavailable).1);
    assert_eq!(o.message, Some(String::from("Unable to open output file")));
    let msg = String::from("No such file or directory (os error 2)");
    let (p, a) = resume(&ds, Phase::Launching(1), Event::SpawnFailed(msg.clone()));
    assert_eq!(p, Phase::Done);
    assert_eq!(finished(a).message, Some(msg));
}

#[test]
fn phases_accept_only_their_events() {
    let ds = process_input("a").unwrap();
    assert!(Phase::Launching(0).accepts(&ds, &Event::Launched));
    assert!(!Phase::Launching(1).accepts(&ds, &Event::Launched));
    assert!(!Phase::Waiting.accepts(&ds, &Event::Launched));
    assert!(Phase::BuiltIn.accepts(&ds, &Event::BuiltInDone(Ok(()))));
    assert!(!Phase::Done.accepts(&ds, &Event::Launched));
}

#[test]
fn faces() {
    assert_eq!(get_face(true), ":)");
    assert_eq!(get_face(false), ":(");
}

#[test]
fn every_stderr_text_reported() {
    let o = conclude(Exit {
        stdout: String::from("out"),
        stderr: vec![String::from("x"), String::from("e"), String::new()],
        success: false,
    });
    assert!(!o.succeeded && o.continue_session);
    assert_eq!(o.output, "");
    assert_eq!(o.message, Some(String::from("x\ne")));
}

#[test]
fn single_middle_stderr_is_the_message() {
    let o = conclude(Exit {
        stdout: String::from("out"),
        stderr: vec![String::new(), String::from("oops\n"), String::new()],
        success: true,
    });
    assert!(!o.succeeded);
    assert_eq!(o.message, Some(String::from("oops\n")));
}
