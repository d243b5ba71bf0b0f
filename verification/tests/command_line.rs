use jdvrif::cli::{parse_args, program_name, usage_message, ConcealOption, ParsedCommand};

fn args(words: &[&str]) -> Vec<Vec<u8>> {
    words.iter().map(|w| w.as_bytes().to_vec()).collect()
}

fn parse(words: &[&str]) -> Result<ParsedCommand, String> {
    parse_args(&args(words), "jdvrif-rs")
}

#[test]
fn parse_info_and_recover() {
    match parse(&["--info"]) {
        Ok(ParsedCommand::Info) => {}
        _ => panic!("expected info"),
    }
    match parse(&["recover", "img.jpg"]) {
        Ok(ParsedCommand::Recover { image }) => assert_eq!(image, b"img.jpg"),
        _ => panic!("expected recover"),
    }
}

#[test]
fn parse_conceal_options() {
    match parse(&["conceal", "a.jpg", "s.bin"]) {
        Ok(ParsedCommand::Conceal { option: ConcealOption::NoOption, .. }) => {}
        _ => panic!("default conceal"),
    }
    match parse(&["conceal", "-b", "a.jpg", "s.bin"]) {
        Ok(ParsedCommand::Conceal { option: ConcealOption::Bluesky, .. }) => {}
        _ => panic!("bluesky"),
    }
    match parse(&["conceal", "-r", "a.jpg", "s.bin"]) {
        Ok(ParsedCommand::Conceal { option: ConcealOption::Reddit, .. }) => {}
        _ => panic!("reddit"),
    }
}

#[test]
fn parse_rejects_bad_arity() {
    assert!(parse(&[]).is_err());
    assert!(parse(&["conceal"]).is_err());
    assert!(parse(&["recover"]).is_err());
    assert!(parse(&["nope"]).is_err());
}

#[test]
fn parse_conceal_keeps_the_file_names() {
    match parse(&["conceal", "-x", "cover.jpg", "secret.doc"]) {
        Ok(ParsedCommand::Conceal { option, image, secret }) => {
            assert_eq!(option, ConcealOption::Twitter);
            assert_eq!(image, b"cover.jpg");
            assert_eq!(secret, b"secret.doc");
        }
        _ => panic!("expected conceal"),
    }
}

#[test]
fn parse_capsize_defaults_to_the_twitter_carrier() {
    match parse(&["capsize", "cover.jpg"]) {
        Ok(ParsedCommand::Capsize { option: ConcealOption::Twitter, image }) => {
            assert_eq!(image, b"cover.jpg")
        }
        _ => panic!("expected capsize"),
    }
    match parse(&["capsize", "-r", "cover.jpg"]) {
        Ok(ParsedCommand::Capsize { option: ConcealOption::Reddit, image }) => {
            assert_eq!(image, b"cover.jpg")
        }
        _ => panic!("expected capsize -r"),
    }
    match parse(&["capsize", "-x", "cover.jpg"]) {
        Ok(ParsedCommand::Capsize { option: ConcealOption::Twitter, .. }) => {}
        _ => panic!("expected capsize -x"),
    }
    assert!(parse(&["capsize"]).is_err());
    assert!(parse(&["capsize", "-r"]).is_err());
    assert!(parse(&["capsize", "-r", "a.jpg", "b.jpg"]).is_err());
}

#[test]
fn a_refused_command_line_is_answered_with_the_usage() {
    let usage = "Usage: jdvrif-rs conceal [-b|-r|-x] <cover_image> <secret_file>\n       \
                 jdvrif-rs recover <cover_image>\n       \
                 jdvrif-rs capsize [-r|-x] <cover_image>\n       \
                 jdvrif-rs --info";
    assert_eq!(usage_message("jdvrif-rs"), usage);
    match parse(&["recover", "a.jpg", "b.jpg"]) {
        Err(message) => assert_eq!(message, usage),
        Ok(_) => panic!("one image too many"),
    }
}

#[test]
fn the_program_is_named_by_the_last_component() {
    assert_eq!(program_name(b"/usr/bin/jdvrif-rs"), b"jdvrif-rs");
    assert_eq!(program_name(b"jrif"), b"jrif");
    assert_eq!(program_name(b""), b"jdvrif-rs");
    assert_eq!(program_name(b"/"), b"jdvrif-rs");
}
