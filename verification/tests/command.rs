use localhost_build::command::{help_lines, Command, COMMAND_COUNT};

#[test]
pub fn every_command_is_found_by_its_name() {
    let all = Command::all();
    assert_eq!(all.len(), COMMAND_COUNT);
    assert_eq!(all.len(), 52);
    for (place, command) in all.iter().enumerate() {
        assert_eq!(Command::named(command.name()), Some(*command));
        assert_eq!(Command::at(place), Some(*command));
        assert!(command.name().starts_with(':'));
        for other in &all[..place] {
            assert_ne!(other, command);
        }
    }
    assert_eq!(Command::at(COMMAND_COUNT), None);
    assert_eq!(Command::named(":help"), Some(Command::HelpVerbose));
    assert_eq!(Command::named(":cpdc"), Some(Command::CopyDirectoryCached));
    assert_eq!(Command::named("l"), None);
    assert_eq!(Command::named(":L"), None);
    assert_eq!(Command::named(""), None);
}

#[test]
pub fn the_short_help_has_one_line_for_each_command() {
    let lines = help_lines(false, "1.2.3");
    assert_eq!(lines.len(), 2 + COMMAND_COUNT);
    assert_eq!(lines[0], "localhost-build 1.2.3");
    assert_eq!(lines[1], "");
    assert_eq!(lines[2], ":argto              :argto \"-n\" variablename");
    assert_eq!(lines[3], ":and                :and ");
    assert_eq!(lines[53], ":ws                 :ws 1");
}

#[test]
pub fn the_long_help_says_what_each_command_does() {
    let lines = help_lines(true, "0.1.0");
    assert_eq!(lines.len(), 3 + 3 * COMMAND_COUNT);
    assert_eq!(lines[2], "Command             Example");
    assert_eq!(lines[3], "---------------------------");
    assert_eq!(lines[4], ":argto              :argto \"-n\" variablename");
    assert_eq!(
        lines[5],
        "| gets the value of an argument and assigns a variable (sets to empty string if no value)"
    );
    assert_eq!(lines[lines.len() - 1], "| waits seconds");
    assert_eq!(Command::Silent.help(), "stops printing \"Starting phase[...]\"");
    assert_eq!(Command::Assign.example(), "savewd $pwd");
}
