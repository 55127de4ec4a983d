use cvm::command::{process_arguments, Command, UNSUPPORTED_ARG_STR};

fn line(items: &[&str]) -> Vec<String> {
    items.iter().map(|item| item.to_string()).collect()
}

#[test]
fn the_first_word_names_the_command() {
    assert_eq!(process_arguments(&line(&["cvm", "current"])), Command::Current);
    assert_eq!(process_arguments(&line(&["cvm", "list"])), Command::List);
    assert_eq!(process_arguments(&line(&["cvm", "list", "--all"])), Command::List);
    assert_eq!(process_arguments(&line(&["cvm", "install"])), Command::Install);
    assert_eq!(process_arguments(&line(&["cvm", "install", "3.20.3"])), Command::Install);
    assert_eq!(process_arguments(&line(&["cvm", "remove", "--all"])), Command::Remove);
    assert_eq!(process_arguments(&line(&["cvm", "switch", "3.20.3"])), Command::Switch);
    assert_eq!(process_arguments(&line(&["cvm", "--help"])), Command::Help);
    assert_eq!(process_arguments(&line(&["cvm", "-h"])), Command::Help);
    assert_eq!(process_arguments(&line(&["cvm", "--version"])), Command::Version);
    assert_eq!(process_arguments(&line(&["cvm", "-v", "more"])), Command::Version);
}

#[test]
fn a_command_line_without_a_word_asks_for_nothing() {
    assert_eq!(process_arguments(&line(&["cvm"])), Command::Missing);
    assert_eq!(process_arguments(&line(&[])), Command::Missing);
}

#[test]
fn a_tag_alone_is_a_command() {
    assert_eq!(
        process_arguments(&line(&["cvm", "3.20.3"])),
        Command::Tag { version: "3.20.3".to_string(), extra: false }
    );
    assert_eq!(
        process_arguments(&line(&["cvm", "3.20.3", "now"])),
        Command::Tag { version: "3.20.3".to_string(), extra: true }
    );
}

#[test]
fn an_unknown_word_is_answered_with_the_words_given() {
    assert_eq!(
        process_arguments(&line(&["cvm", "3.20", "please"])),
        Command::Unsupported { message: format!("{}cvm 3.20 please ", UNSUPPORTED_ARG_STR) }
    );
    assert_eq!(
        process_arguments(&line(&["cvm", "Install"])),
        Command::Unsupported {
            message: "The first argument does not match whith any option we support.\nPlease use 'cvm --help' to view all possible options.\nGiven options: cvm Install "
                .to_string()
        }
    );
}
