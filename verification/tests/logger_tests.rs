use arrus::logger::Logger;

#[test]
fn prefix_names_the_component_in_colour() {
    let logger = Logger::new("rpc");
    assert_eq!(
        logger.info_line("hello"),
        "[\x1b[38;2;88;101;242marRPC\x1b[0m > \x1b[38;2;87;242;135mrpc\x1b[0m] hello"
    );
}

#[test]
fn error_lines_are_marked() {
    let logger = Logger::new("ipc");
    assert_eq!(
        logger.error_line("broken"),
        "[\x1b[38;2;88;101;242marRPC\x1b[0m > \x1b[38;2;87;242;135mipc\x1b[0m] ERROR: broken"
    );
}

#[test]
fn rgb_and_reset_sequences() {
    assert_eq!(Logger::rgb(1, 20, 255, "x"), "\x1b[38;2;1;20;255mx");
    assert_eq!(Logger::reset_color(), "\x1b[0m");
}
