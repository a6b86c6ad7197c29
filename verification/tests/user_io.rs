use sqlite_clone::user_io::{configure_env, prompt_user_input, InputBuffer};

#[test]
fn new_buffer_is_empty() {
    let mut input_buffer = InputBuffer::with_capacity(4096);
    assert_eq!(*input_buffer.buffer_length(), 4096);
    assert!(input_buffer.buffer().is_empty());
}

#[test]
fn buffer_can_be_changed_in_place() {
    let mut input_buffer = InputBuffer::with_capacity(16);
    input_buffer.buffer().push_str("select");
    assert_eq!(input_buffer.buffer().as_str(), "select");
    input_buffer.buffer().clear();
    assert!(input_buffer.buffer().is_empty());
    assert_eq!(*input_buffer.buffer_length(), 16);
}

#[test]
fn banner_names_the_version() {
    assert_eq!(
        configure_env("0.1.0"),
        "SQLite rust clone version 0.1.0\nEnter \".help\" for instructions\n"
    );
    assert_eq!(
        configure_env(""),
        "SQLite rust clone version \nEnter \".help\" for instructions\n"
    );
}

#[test]
fn line_is_kept_without_its_terminator() {
    let mut input_buffer = InputBuffer::with_capacity(64);
    prompt_user_input(&mut input_buffer, "select\n");
    assert_eq!(input_buffer.buffer().as_str(), "select");
    prompt_user_input(&mut input_buffer, ".exit\n");
    assert_eq!(input_buffer.buffer().as_str(), ".exit");
    assert_eq!(*input_buffer.buffer_length(), 64);
}

#[test]
fn line_loses_its_last_character_whatever_it_is() {
    let mut input_buffer = InputBuffer::with_capacity(64);
    prompt_user_input(&mut input_buffer, "select");
    assert_eq!(input_buffer.buffer().as_str(), "selec");
    prompt_user_input(&mut input_buffer, "\n");
    assert_eq!(input_buffer.buffer().as_str(), "");
    prompt_user_input(&mut input_buffer, "");
    assert_eq!(input_buffer.buffer().as_str(), "");
    prompt_user_input(&mut input_buffer, "caf\u{e9}");
    assert_eq!(input_buffer.buffer().as_str(), "caf");
}
