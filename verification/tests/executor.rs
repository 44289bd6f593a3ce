use localhost_build::executor::{
    Effect, Environment, Evaluation, ExecError, Executor, ProcessMode, Stage,
};
use localhost_build::fs::{FsError, FsOp};
use localhost_build::lexer::LexError;
use localhost_build::str::{get_line_strings, LineError};
use localhost_build::table::TableError;
use localhost_build::token::{Token, TokenKind};

fn environment(args: &[&str]) -> Environment {
    Environment { args: args.iter().map(|a| a.to_string()).collect(), pwd: "/work".to_string() }
}

/// Takes steps until the run is over, and gives back what was asked for on the way.
fn effects(executor: &mut Executor, env: &Environment) -> Result<Vec<Effect>, ExecError> {
    let mut seen = Vec::new();
    loop {
        match executor.try_step(env)? {
            Effect::Finished => return Ok(seen),
            Effect::Nothing => {}
            Effect::Exit(code) => {
                seen.push(Effect::Exit(code));
                return Ok(seen);
            }
            effect => seen.push(effect),
        }
    }
}

/// Takes the steps of a script that runs to its end.
fn execute(executor: &mut Executor, env: &Environment) -> Vec<Effect> {
    let mut seen = Vec::new();
    loop {
        match executor.step(env) {
            Effect::Finished => return seen,
            Effect::Nothing => {}
            effect => seen.push(effect),
        }
    }
}

fn run(script: &str, args: &[&str]) -> Result<Vec<Effect>, ExecError> {
    let mut executor = Executor::try_new(script.to_string()).unwrap();
    effects(&mut executor, &environment(args))
}

fn printed(script: &str, args: &[&str]) -> Vec<String> {
    run(script, args)
        .unwrap()
        .into_iter()
        .map(|effect| match effect {
            Effect::Print(text) => text,
            other => format!("{:?}", other),
        })
        .collect()
}

fn print(text: &str) -> Effect {
    Effect::Print(text.to_string())
}

#[test]
pub fn groups_are_not_added_as_commands_to_script() {
    let script = r#"
        :l no such bug
        [test $var1
            :l found a bug!
        ]
        "#;

    let mut executor = Executor::new(script.into());
    assert!(matches!(
        executor.next_token().kind,
        TokenKind::Command(s) if s == ":l no such bug"
    ));
    assert!(matches!(executor.next_token().kind, TokenKind::EndOfText,));
}

#[test]
pub fn groups_are_added_as_groups() {
    let script = r#"
        [test $var1
            :l testing $var1
        ]
        "#;

    let executor = Executor::new(script.into());
    assert!(executor.groups().contains_key("test"));
    assert_eq!(executor.groups().get("test").unwrap().commands.len(), 1);
    assert!(
        matches!(executor.groups().get("test").unwrap().commands.first().unwrap().kind, TokenKind::Command(ref s) if s == ":l testing $var1")
    );
}

#[test]
#[should_panic]
pub fn calling_undefined_group() {
    let script = r#"
        !undefined 1
        "#;

    let mut executor = Executor::new(script.into());
    execute(&mut executor, &environment(&[]));
}

#[test]
pub fn calling_undefined_group_is_an_error() {
    assert_eq!(run("!undefined 1", &[]), Err(ExecError::UndefinedGroup));
}

#[test]
pub fn calling_defined_group() {
    let script = r#"
        !test-1 world
        !test-1 carl
        !test-1 erik
        !test-1 patrik
        
        [test-1 $var-1
            :l hello $var-1
        ]
        "#;

    let mut executor = Executor::new(script.into());
    let seen = execute(&mut executor, &environment(&[]));
    assert_eq!(
        seen,
        vec![print("hello world"), print("hello carl"), print("hello erik"), print("hello patrik")]
    );
}

#[test]
pub fn logging_to_stdout() {
    let script = r#"
        :l hello world
        "#;

    let mut executor = Executor::new(script.into());
    let seen = execute(&mut executor, &environment(&[]));
    assert_eq!(seen, vec![print("hello world")]);
}

#[test]
pub fn get_execute_strings() {
    let strings = get_line_strings("/c echo \"hello \\\"world\"".into());
    assert_eq!(
        strings,
        vec!["/c", "echo", "hello \"world"].iter().map(|s| s.to_string()).collect::<Vec<String>>()
    );
}

#[test]
pub fn a_single_log_line_prints_and_ends_without_a_cache() {
    let mut executor = Executor::try_new(":l hello world".to_string()).unwrap();
    let env = environment(&[]);
    assert_eq!(executor.try_step(&env), Ok(print("hello world")));
    assert_eq!(executor.stage(), Stage::Running);
    assert_eq!(executor.try_step(&env), Ok(Effect::Nothing));
    assert_eq!(executor.stage(), Stage::Closing);
    assert_eq!(executor.try_step(&env), Ok(Effect::Nothing));
    assert_eq!(executor.stage(), Stage::Flushing);
    assert_eq!(executor.try_step(&env), Ok(Effect::Nothing));
    assert_eq!(executor.stage(), Stage::Done);
    assert_eq!(executor.try_step(&env), Ok(Effect::Finished));
    assert_eq!(executor.try_step(&env), Ok(Effect::Finished));
    assert!(executor.cache().is_empty());
}

#[test]
pub fn a_group_with_a_parameter_prints_its_argument() {
    let script = "[test $v\n:l hello $v\n]\n!test carl\n";
    assert_eq!(printed(script, &[]), vec!["hello carl"]);
}

#[test]
pub fn goto_skips_everything_up_to_its_phase() {
    let script = ":goto @run\n:l skipped 1\n@skip\n:l skipped 2\n!nothing\n@run\n:l running\n";
    assert_eq!(printed(script, &[]), vec!["Starting phase run", "running"]);
}

#[test]
pub fn goto_cannot_go_back() {
    let script = "@start\n:l once\n:goto @start\n:l never\n";
    assert_eq!(
        printed(script, &[]),
        vec!["Starting phase start", "once", "goto could not find phase '@start'"]
    );
}

#[test]
pub fn assignments_are_made_while_a_jump_is_under_way() {
    let script = ":goto @end\n$a = 1\n$b ?= 2\n@end\n:l $a $b";
    assert_eq!(printed(script, &[]), vec!["Starting phase end", "1 2"]);
}

#[test]
pub fn silent_stops_the_announcing_of_phases() {
    assert_eq!(printed("@one\n:silent\n@two\n:l x", &[]), vec!["Starting phase one", "x"]);
}

#[test]
pub fn too_few_arguments_are_fatal_and_extra_ones_are_ignored() {
    let group = "[pair $a $b\n:l $a+$b\n]\n";
    assert_eq!(run(&format!("{}!pair 1\n", group), &[]), Err(ExecError::TooFewArguments));
    assert_eq!(run(&format!("{}!pair\n", group), &[]), Err(ExecError::TooFewArguments));
    assert_eq!(printed(&format!("{}!pair 1 2\n", group), &[]), vec!["1+2"]);
    assert_eq!(printed(&format!("{}!pair 1 2 3 4\n", group), &[]), vec!["1+2"]);
}

#[test]
pub fn group_arguments_come_before_variables_and_are_forgotten_after_the_group() {
    let script = "$a = global\n[show $a\n:l in $a\n]\n!show local\n:l out $a\n";
    assert_eq!(printed(script, &[]), vec!["in local", "out global"]);
    let script = "[show $x\n:l in $x\n]\n!show 1\n:l out $x.\n";
    assert_eq!(printed(script, &[]), vec!["in 1", "out ."]);
}

#[test]
pub fn arguments_of_a_call_are_replaced_before_they_are_bound() {
    let script = "$who = carl\n[greet $v\n:l hello $v\n]\n!greet $who\n";
    assert_eq!(printed(script, &[]), vec!["hello carl"]);
}

#[test]
pub fn quitting_inside_a_group_ends_the_run() {
    let script = "[g\n:l one\n:q\n:l two\n]\n!g\n:l three\n";
    assert_eq!(printed(script, &[]), vec!["one"]);
}

#[test]
pub fn a_group_without_commands_does_nothing() {
    let script = "[g $a\n# nothing\n]\n!g 1\n:l after\n";
    assert_eq!(printed(script, &[]), vec!["after"]);
}

#[test]
pub fn and_joins_two_comparisons() {
    let script = ":if X\n:eq X\n:and\n:eq Y\n:lt both\n:lf not both\n";
    assert_eq!(printed(script, &[]), vec!["not both"]);
    let script = ":if X\n:eq X\n:and\n:eq X\n:lt both\n:lf not both\n";
    assert_eq!(printed(script, &[]), vec!["both"]);
}

#[test]
pub fn or_joins_two_comparisons() {
    let script = ":if X\n:eq X\n:or\n:eq Y\n:lt one\n:lf none\n";
    assert_eq!(printed(script, &[]), vec!["one"]);
    let script = ":if X\n:eq Z\n:or\n:eq Y\n:lt one\n:lf none\n";
    assert_eq!(printed(script, &[]), vec!["none"]);
}

#[test]
pub fn registers_after_and_and_or() {
    let env = environment(&[]);
    let mut executor = Executor::try_new(String::new()).unwrap();
    assert_eq!(executor.try_get_if_result(), Err(ExecError::MissingResult));
    assert_eq!(executor.try_add_if_result(true), Ok(()));
    assert_eq!(executor.try_execute_command(":and", String::new(), &env), Ok(Effect::Nothing));
    assert_eq!(executor.try_add_if_result(false), Ok(()));
    assert_eq!(executor.try_get_if_result(), Ok(false));
    assert_eq!(executor.try_execute_command(":or", String::new(), &env), Ok(Effect::Nothing));
    assert_eq!(executor.try_add_if_result(true), Ok(()));
    assert_eq!(executor.last_result(), Some(true));
    assert_eq!(executor.try_add_if_result(false), Ok(()));
    assert_eq!(executor.last_result(), Some(false));
    assert_ne!(Evaluation::And, Evaluation::Or);
}

#[test]
pub fn not_turns_the_result_round_and_leaves_a_waiting_and_alone() {
    let script = ":if X\n:eq X\n:and\n:not\n:lf turned\n:eq X\n:lf false and true\n";
    assert_eq!(printed(script, &[]), vec!["turned", "false and true"]);
    let script = ":if X\n:eq Y\n:or\n:not\n:lt turned\n:eq Y\n:lt true or false\n";
    assert_eq!(printed(script, &[]), vec!["turned", "true or false"]);
}

#[test]
pub fn and_without_an_earlier_result() {
    assert_eq!(run(":and\n:eq x\n", &[]), Err(ExecError::MissingPrevious));
    assert_eq!(run(":or\n:empty\n", &[]), Err(ExecError::MissingPrevious));
}

#[test]
pub fn commands_that_need_a_result() {
    for command in [":not", ":gotot @x", ":gotof @x", ":qt", ":qf", ":qet", ":qef", ":lt x", ":lf x", ":sett a b", ":setf a b"] {
        assert_eq!(run(command, &[]), Err(ExecError::MissingResult), "{}", command);
    }
}

#[test]
pub fn comparisons() {
    let script = ":if build-only fast\n:contains only\n:lt contains\n:contains slow\n:lf contains not\n\
                  :empty\n:lf not empty\n:neq x\n:lt not equal\n:not\n:lf negated\n\
                  :if\n:empty\n:lt empty now\n:contains\n:lt holds nothing\n";
    assert_eq!(
        printed(script, &[]),
        vec!["contains", "contains not", "not empty", "not equal", "negated", "empty now", "holds nothing"]
    );
}

#[test]
pub fn variables_and_registers_are_replaced() {
    let script = "$name = carl\n:l $name, $missing, \\$name, \\x, $pwd, $args, $exit-code, [$stdout] [$stderr]\n";
    assert_eq!(
        printed(script, &["-n", "5"]),
        vec!["carl, , $name, \\x, /work, -n 5, 0, [] []"]
    );
}

#[test]
pub fn interpreting_a_string() {
    let env = environment(&["a", "b"]);
    let mut executor = Executor::try_new("$v = value".to_string()).unwrap();
    assert_eq!(executor.try_step(&env), Ok(Effect::Nothing));
    assert_eq!(executor.variables().get("v"), Some(&"value".to_string()));
    assert_eq!(executor.interpret_string("<$v>$v-$v_ $".to_string(), &env), "<value> ");
    assert_eq!(executor.interpret_string("$v $".to_string(), &env), "value ");
    assert_eq!(executor.interpret_string("end\\".to_string(), &env), "end\\");
    assert_eq!(executor.interpret_string("$args".to_string(), &env), "a b");
    executor.process_exited(-3);
    assert_eq!(executor.interpret_string("$exit-code".to_string(), &env), "-3");
    executor.process_exited(i32::MIN);
    assert_eq!(executor.interpret_string("$exit-code".to_string(), &env), "-2147483648");
}

#[test]
pub fn set_commands() {
    let script = ":set a one  two\n:if x\n:eq x\n:sett b yes\n:setf c no\n:l [$a] [$b] [$c]\n:hasvar a\n:lt has a\n:hasvar c\n:lf has no c\n";
    assert_eq!(printed(script, &[]), vec!["[one two] [yes] []", "has a", "has no c"]);
}

#[test]
pub fn set_if_not_set_keeps_an_earlier_value() {
    assert_eq!(printed("$a = 1\n$a ?= 2\n$b ?= 3\n$b = 4\n:l $a $b", &[]), vec!["1 4"]);
}

#[test]
pub fn arguments_of_the_command_line() {
    let script = ":hasarg -x --release\n:lt has\n:hasarg -y\n:lf has not\n:argto \"-n\" name\n:l [$name]\n:argto --release r\n:l [$r]\n:argto -y y\n:l [$y]\n";
    assert_eq!(
        printed(script, &["--release", "-n", "one", "two", "-f", "three"]),
        vec!["has", "has not", "[one two]", "[]", "[]"]
    );
}

#[test]
pub fn value_of_an_argument() {
    let env = environment(&["build", "-n", "a b", "c", "--x"]);
    assert_eq!(Executor::try_get_arg("-n".to_string(), &env), Ok("a b c".to_string()));
    assert_eq!(Executor::try_get_arg("-q -n".to_string(), &env), Ok("a b c".to_string()));
    assert_eq!(Executor::try_get_arg("--x".to_string(), &env), Ok(String::new()));
    assert_eq!(Executor::try_get_arg("-z".to_string(), &env), Ok(String::new()));
    assert_eq!(Executor::try_get_arg("build".to_string(), &env), Ok(String::new()));
    let env = environment(&["-n", "a\\b"]);
    assert_eq!(Executor::try_get_arg("-n".to_string(), &env), Err(LineError::UnknownEscape));
    assert_eq!(Executor::try_get_arg("-z".to_string(), &env), Ok(String::new()));
}

#[test]
pub fn argto_needs_an_argument_and_a_variable() {
    assert_eq!(run(":argto", &[]), Err(ExecError::MissingArgument));
    assert_eq!(run(":argto -n", &[]), Err(ExecError::MissingVariable));
    assert_eq!(run(":argto \\q x", &[]), Err(ExecError::Line(LineError::UnknownEscape)));
}

#[test]
pub fn process_commands() {
    assert_eq!(
        run(":e cargo build \"--message-format json\"\n:ep ls\n:enw \"my tool\" -v\n", &[]),
        Ok(vec![
            Effect::Run(
                ProcessMode::Capture,
                "cargo".to_string(),
                vec!["build".to_string(), "--message-format json".to_string()]
            ),
            Effect::Run(ProcessMode::Inherit, "ls".to_string(), vec![]),
            Effect::Run(ProcessMode::Detached, "my tool".to_string(), vec!["-v".to_string()]),
        ])
    );
    assert_eq!(run(":e", &[]), Err(ExecError::MissingProcess));
    assert_eq!(run(":ep \\", &[]), Err(ExecError::Line(LineError::UnknownEscape)));
    assert_eq!(
        Executor::try_get_execution_args("a b".to_string()),
        Ok(("a".to_string(), vec!["b".to_string()]))
    );
}

#[test]
pub fn what_a_process_left_behind() {
    let env = environment(&[]);
    let script = ":e tool\n:ise\n:lt failed\n:loe error: $stderr\n:los fine\n:leo\n:qoe\n:l never\n";
    let mut executor = Executor::try_new(script.to_string()).unwrap();
    assert_eq!(
        executor.try_step(&env),
        Ok(Effect::Run(ProcessMode::Capture, "tool".to_string(), vec![]))
    );
    executor.process_finished("out".to_string(), "err".to_string(), 2);
    assert_eq!(
        effects(&mut executor, &env),
        Ok(vec![print("failed"), print("error: err"), print("err\nout")])
    );
    let script = ":iss\n:lt succeeded\n:loe error\n:los fine\n:leo\n:qoe\n:qoee\n:l still here\n";
    assert_eq!(printed(script, &[]), vec!["succeeded", "fine", "still here"]);
}

#[test]
pub fn log_output_prints_only_what_was_written() {
    let env = environment(&[]);
    let mut executor = Executor::try_new(":leo\n:leo".to_string()).unwrap();
    executor.process_finished("out".to_string(), String::new(), 0);
    assert_eq!(executor.try_step(&env), Ok(print("out")));
    executor.process_finished(String::new(), "err".to_string(), 0);
    assert_eq!(executor.try_step(&env), Ok(print("err")));
}

#[test]
pub fn quitting_with_an_error_leaves_at_once() {
    assert_eq!(run(":l one\n:qe\n:l two", &[]), Ok(vec![print("one"), Effect::Exit(1)]));
    assert_eq!(run(":if a\n:eq a\n:qef\n:qet\n:l two", &[]), Ok(vec![Effect::Exit(1)]));
    assert_eq!(run(":if a\n:eq b\n:qet\n:qef\n:l two", &[]), Ok(vec![Effect::Exit(1)]));
    let env = environment(&[]);
    let mut executor = Executor::try_new(":qoee\n:l never".to_string()).unwrap();
    executor.process_exited(1);
    assert_eq!(executor.try_step(&env), Ok(Effect::Exit(1)));
    assert_eq!(executor.stage(), Stage::Done);
    assert_eq!(executor.try_step(&env), Ok(Effect::Finished));
}

#[test]
pub fn quitting_on_a_result() {
    assert_eq!(printed(":if a\n:eq a\n:qf\n:l one\n:qt\n:l two", &[]), vec!["one"]);
    assert_eq!(printed(":if a\n:eq b\n:qt\n:l one\n:qf\n:l two", &[]), vec!["one"]);
    assert_eq!(printed(":q\n:l never", &[]), Vec::<String>::new());
}

#[test]
pub fn jumps_on_a_result() {
    assert_eq!(
        printed(":silent\n:if a\n:eq a\n:gotof @no\n:gotot @yes\n:l skipped\n@no\n:l no\n@yes\n:l yes", &[]),
        vec!["yes"]
    );
}

#[test]
pub fn file_commands() {
    let op = |source: &str, target: &str| FsOp { source: source.to_string(), target: target.to_string() };
    assert_eq!(
        run(":cp \"a b\" \"c\"\n:cpc \"a\" \"b\"\n:cpd \"a\" \"b\"\n:cpdc \"a\" \"b\"\n:mv \"a\" \"b\"\n:cd some dir\n", &[]),
        Ok(vec![
            Effect::Copy(op("a b", "c")),
            Effect::CachedCopy(op("a", "b")),
            Effect::CopyDirectory(op("a", "b")),
            Effect::CachedCopyDirectory(op("a", "b")),
            Effect::Move(op("a", "b")),
            Effect::ChangeDirectory("some dir".to_string()),
        ])
    );
    assert_eq!(run(":cp", &[]), Err(ExecError::Fs(FsError::MissingSource)));
    assert_eq!(run(":mv \"a\"", &[]), Err(ExecError::Fs(FsError::MissingTarget)));
    assert_eq!(run(":mvd \"a\" \"b\"", &[]), Err(ExecError::NotImplemented));
}

#[test]
pub fn the_cache_is_written_at_the_end_and_on_demand() {
    let env = environment(&[]);
    let mut executor = Executor::try_new(":wc\n:wc\n".to_string()).unwrap();
    assert_eq!(executor.try_step(&env), Ok(Effect::Nothing));
    assert!(!executor.is_up_to_date("bin/b", true, &Some(b"content".to_vec())));
    executor.record_copy("bin/b".to_string(), &Some(b"123456789".to_vec()));
    executor.record_copy("bin/a's".to_string(), &Some(Vec::new()));
    executor.record_copy("unreadable".to_string(), &None);
    let text = "\"bin/b\" \"3421780262\"\n\"bin/a\\'s\" \"0\"".to_string();
    assert_eq!(executor.try_step(&env), Ok(Effect::WriteCache(text.clone())));
    assert_eq!(effects(&mut executor, &env), Ok(vec![Effect::WriteCache(text)]));
    assert!(executor.is_up_to_date("bin/b", true, &Some(b"123456789".to_vec())));
    assert!(!executor.is_up_to_date("bin/b", false, &Some(b"123456789".to_vec())));
    assert!(!executor.is_up_to_date("bin/b", true, &Some(b"123456780".to_vec())));
    assert!(!executor.is_up_to_date("bin/b", true, &None));
    assert!(!executor.is_up_to_date("unreadable", true, &Some(Vec::new())));
}

#[test]
pub fn a_given_cache_is_kept() {
    let cache = localhost_build::str::try_parse_cache("\"t\" \"5\"".to_string()).unwrap();
    let mut executor = Executor::try_with_cache(":l x".to_string(), cache).unwrap();
    assert_eq!(executor.cache().get("t"), Some(&5));
    assert_eq!(
        effects(&mut executor, &environment(&[])),
        Ok(vec![print("x"), Effect::WriteCache("\"t\" \"5\"".to_string())])
    );
}

#[test]
pub fn tables() {
    let env = environment(&[]);
    let mut executor = Executor::try_new(":tb\n:th Name \"Full size\"\n:tr a 1\n:tr \"b c\" 2\n:te\n:tb \" \" 12\n".to_string()).unwrap();
    assert_eq!(executor.table().cell_margin, 0);
    assert_eq!(executor.try_step(&env), Ok(Effect::Nothing));
    assert_eq!(executor.table().cell_margin, 5);
    assert_eq!(executor.try_step(&env), Ok(Effect::Nothing));
    assert_eq!(executor.try_step(&env), Ok(Effect::Nothing));
    assert_eq!(executor.try_step(&env), Ok(Effect::Nothing));
    assert_eq!(
        executor.try_step(&env),
        Ok(print("Name     Full size     \n----     ---------     \na        1             \nb c      2             "))
    );
    let table = executor.table();
    assert_eq!(table.headers.len(), 2);
    assert_eq!(table.headers[1].content, "Full size");
    assert_eq!(table.headers[1].length, 9);
    assert_eq!(table.rows.len(), 2);
    assert_eq!(table.rows[1].cells[0].content, "b c");
    assert_eq!(executor.try_step(&env), Ok(Effect::Nothing));
    assert_eq!(executor.table().cell_margin, 12);
    assert!(executor.table().rows.is_empty());
    assert_eq!(run(":tb x", &[]), Err(ExecError::BadMargin));
    assert_eq!(run(":th a\n:te", &[]), Err(ExecError::Table(TableError::NoRows)));
    assert_eq!(run(":th a b\n:tr 1\n:te", &[]), Err(ExecError::Table(TableError::MissingCell)));
    assert_eq!(printed(":te", &[]), vec!["\n"]);
    assert_eq!(run(":th \\", &[]), Err(ExecError::Line(LineError::UnknownEscape)));
}

#[test]
pub fn waiting() {
    assert_eq!(run(":ws 3", &[]), Ok(vec![Effect::Sleep(3)]));
    assert_eq!(run(":ws 18446744073709551615", &[]), Ok(vec![Effect::Sleep(u64::MAX)]));
    assert_eq!(run(":ws 18446744073709551616", &[]), Err(ExecError::BadSeconds));
    assert_eq!(run(":ws", &[]), Err(ExecError::BadSeconds));
    assert_eq!(run(":ws 1 2", &[]), Err(ExecError::BadSeconds));
}

#[test]
pub fn help_is_asked_for_and_the_run_ends() {
    assert_eq!(run(":h\n:l never", &[]), Ok(vec![Effect::Help(false)]));
    assert_eq!(run(":hv\n:l never", &[]), Ok(vec![Effect::Help(true)]));
    assert_eq!(run(":help\n:l never", &[]), Ok(vec![Effect::Help(true)]));
}

#[test]
pub fn unknown_commands_and_tokens() {
    assert_eq!(run(":nope", &[]), Err(ExecError::UnknownCommand));
    assert_eq!(run(":", &[]), Err(ExecError::UnknownCommand));
    assert_eq!(run(":l\tx", &[]), Err(ExecError::UnknownCommand));
    assert_eq!(printed("[g\n:q\n]:l x", &[]), vec!["x"]);
    assert_eq!(Executor::try_new("[g".to_string()).err(), Some(LexError::UnterminatedGroup));
    assert_eq!(Executor::try_new("x".to_string()).err(), Some(LexError::UnknownToken('x')));
}

#[test]
pub fn tokens_that_are_out_of_place() {
    let env = environment(&[]);
    let mut executor = Executor::try_new(String::new()).unwrap();
    assert_eq!(executor.try_execute_token(Token::none(), &env), Err(ExecError::UnexpectedToken));
    assert_eq!(
        executor.try_execute_token(Token::new(TokenKind::EndGroup), &env),
        Err(ExecError::UnexpectedToken)
    );
    assert_eq!(
        executor.try_execute_token(Token::new(TokenKind::String("text".to_string())), &env),
        Err(ExecError::UnexpectedToken)
    );
    assert_eq!(
        executor.try_execute_token(Token::new(TokenKind::Command(":l fed by hand".to_string())), &env),
        Ok(print("fed by hand"))
    );
    assert_eq!(executor.try_execute_token(Token::end(), &env), Ok(Effect::Nothing));
    assert_eq!(executor.stage(), Stage::Closing);
}

#[test]
pub fn a_failed_command_leaves_the_registers_alone() {
    let env = environment(&[]);
    let mut executor = Executor::try_new(String::new()).unwrap();
    assert_eq!(executor.try_execute_command(":if", "subject".to_string(), &env), Ok(Effect::Nothing));
    assert_eq!(executor.try_execute_command(":not", String::new(), &env), Err(ExecError::MissingResult));
    assert_eq!(executor.last_result(), None);
    assert_eq!(executor.try_execute_command(":eq", "subject".to_string(), &env), Ok(Effect::Nothing));
    assert_eq!(executor.last_result(), Some(true));
    assert_eq!(executor.try_next_token(), Ok(Token::end()));
}

#[test]
pub fn what_can_be_done_is_done_without_asking() {
    let env = environment(&["-n", "value"]);
    let cache = localhost_build::str::parse_cache("\"t\" \"5\"".to_string());
    let mut executor = Executor::with_cache("[g $a\n:l in $a\n]\n:if x\n".to_string(), cache);
    assert_eq!(executor.cache().get("t"), Some(&5));
    assert_eq!(executor.step(&env), Effect::Nothing);
    executor.add_if_result(true);
    assert!(executor.get_if_result());
    assert_eq!(executor.execute_command(":eq", "y".to_string(), &env), Effect::Nothing);
    assert!(!executor.get_if_result());
    let group = executor.groups().get("g").unwrap().clone();
    assert_eq!(executor.execute_group(&group, &vec!["1".to_string()], &env), Effect::Nothing);
    assert_eq!(executor.step(&env), print("in 1"));
    assert_eq!(
        executor.execute_token(Token::new(TokenKind::Phase("@p".to_string())), &env),
        print("Starting phase p")
    );
    assert_eq!(Executor::get_arg("-n".to_string(), &env), "value");
    assert_eq!(
        Executor::get_execution_args("tool \"a b\"".to_string()),
        ("tool".to_string(), vec!["a b".to_string()])
    );
    assert_eq!(executor.next_token(), Token::end());
}

#[test]
pub fn a_written_cache_is_read_as_it_was() {
    let env = environment(&[]);
    let mut executor = Executor::new(":wc".to_string());
    executor.record_copy("bin/a \"b\".txt".to_string(), &Some(b"one".to_vec()));
    executor.record_copy("C:\\it's\\here".to_string(), &Some(b"two".to_vec()));
    executor.record_copy("bin/a \"b\".txt".to_string(), &Some(b"three".to_vec()));
    let text = match executor.step(&env) {
        Effect::WriteCache(text) => text,
        other => panic!("{:?}", other),
    };
    for read in [
        localhost_build::str::parse_cache(text.clone()),
        localhost_build::str_utils::parse_cache(text.clone()),
    ] {
        assert_eq!(read.len(), executor.cache().len());
        for place in 0..read.len() {
            assert_eq!(read.key_at(place), executor.cache().key_at(place));
            assert_eq!(read.value_at(place), executor.cache().value_at(place));
        }
    }
}
