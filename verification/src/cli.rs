//! The command line.

use crate::common::{bytes_equal, copy_range};
use crate::filename::{file_name, path_file_name};
use vstd::prelude::*;
use vstd::string::*;

verus! {

/// Where the concealed file is to be shared.
#[derive(Clone, Copy, PartialEq, Eq, Structural, Debug)]
pub enum ConcealOption {
    NoOption,
    Bluesky,
    Reddit,
    Twitter,
}

impl ConcealOption {
    /// The modes that store the payload in the coefficients of the image.
    pub open spec fn is_carrier(self) -> bool {
        self is Reddit || self is Twitter
    }
}

/// What the user asks for. Filenames are raw bytes.
pub enum ParsedCommand {
    Info,
    Conceal { option: ConcealOption, image: Vec<u8>, secret: Vec<u8> },
    Recover { image: Vec<u8> },
    Capsize { option: ConcealOption, image: Vec<u8> },
}

/// What the user asks for, as mathematical values.
pub ghost enum Command {
    Info,
    Conceal { option: ConcealOption, image: Seq<u8>, secret: Seq<u8> },
    Recover { image: Seq<u8> },
    Capsize { option: ConcealOption, image: Seq<u8> },
}

impl View for ParsedCommand {
    type V = Command;

    open spec fn view(&self) -> Command {
        match self {
            ParsedCommand::Info => Command::Info,
            ParsedCommand::Conceal { option, image, secret } => Command::Conceal {
                option: *option,
                image: image@,
                secret: secret@,
            },
            ParsedCommand::Recover { image } => Command::Recover { image: image@ },
            ParsedCommand::Capsize { option, image } => Command::Capsize {
                option: *option,
                image: image@,
            },
        }
    }
}

/// The platform that a word selects, where it is an option of `conceal`.
pub open spec fn conceal_option(word: Seq<u8>) -> Option<ConcealOption> {
    if word == "-b".spec_bytes() {
        Some(ConcealOption::Bluesky)
    } else if word == "-r".spec_bytes() {
        Some(ConcealOption::Reddit)
    } else if word == "-x".spec_bytes() {
        Some(ConcealOption::Twitter)
    } else {
        None
    }
}

/// The carrier that a word selects, where it is an option of `capsize`.
pub open spec fn capsize_option(word: Seq<u8>) -> Option<ConcealOption> {
    match conceal_option(word) {
        Some(option) => if option.is_carrier() {
            Some(option)
        } else {
            None
        },
        None => None,
    }
}

/// What the arguments behind the program's name ask for.
pub open spec fn command(args: Seq<Seq<u8>>) -> Option<Command> {
    if args.len() == 0 {
        None
    } else if args.len() == 1 && args[0] == "--info".spec_bytes() {
        Some(Command::Info)
    } else if args[0] == "conceal".spec_bytes() {
        if args.len() >= 2 && conceal_option(args[1]) is Some {
            if args.len() == 4 {
                Some(
                    Command::Conceal {
                        option: conceal_option(args[1])->0,
                        image: args[2],
                        secret: args[3],
                    },
                )
            } else {
                None
            }
        } else if args.len() == 3 {
            Some(
                Command::Conceal {
                    option: ConcealOption::NoOption,
                    image: args[1],
                    secret: args[2],
                },
            )
        } else {
            None
        }
    } else if args[0] == "recover".spec_bytes() {
        if args.len() == 2 {
            Some(Command::Recover { image: args[1] })
        } else {
            None
        }
    } else if args[0] == "capsize".spec_bytes() {
        if args.len() >= 2 && capsize_option(args[1]) is Some {
            if args.len() == 3 {
                Some(Command::Capsize { option: capsize_option(args[1])->0, image: args[2] })
            } else {
                None
            }
        } else if args.len() == 2 {
            Some(Command::Capsize { option: ConcealOption::Twitter, image: args[1] })
        } else {
            None
        }
    } else {
        None
    }
}

/// The name that the program was called by.
pub fn program_name(argv0: &[u8]) -> (r: Vec<u8>)
    ensures
        r@ == match path_file_name(argv0@) {
            Some(name) => name,
            None => "jdvrif-rs".spec_bytes(),
        },
{
    match file_name(argv0) {
        Some(name) => name,
        None => "jdvrif-rs".as_bytes_vec(),
    }
}

/// How the program is used.
pub open spec fn usage(prog: Seq<char>) -> Seq<char> {
    "Usage: "@ + prog + " conceal [-b|-r|-x] <cover_image> <secret_file>\n       "@ + prog
        + " recover <cover_image>\n       "@ + prog + " capsize [-r|-x] <cover_image>\n       "@
        + prog + " --info"@
}

pub fn usage_message(prog: &str) -> (r: String)
    ensures
        r@ == usage(prog@),
{
    let mut out: String = "Usage: ".to_owned();
    out.append(prog);
    out.append(" conceal [-b|-r|-x] <cover_image> <secret_file>\n       ");
    out.append(prog);
    out.append(" recover <cover_image>\n       ");
    out.append(prog);
    out.append(" capsize [-r|-x] <cover_image>\n       ");
    out.append(prog);
    out.append(" --info");
    out
}

fn word_option(word: &[u8]) -> (r: Option<ConcealOption>)
    ensures
        r == conceal_option(word@),
{
    if bytes_equal(word, "-b".as_bytes()) {
        Some(ConcealOption::Bluesky)
    } else if bytes_equal(word, "-r".as_bytes()) {
        Some(ConcealOption::Reddit)
    } else if bytes_equal(word, "-x".as_bytes()) {
        Some(ConcealOption::Twitter)
    } else {
        None
    }
}

fn word_copy(word: &Vec<u8>) -> (r: Vec<u8>)
    ensures
        r@ == word@,
{
    let r: Vec<u8> = copy_range(word, 0, word.len());
    assert(r@ =~= word@);
    r
}

/// The raw bytes of the arguments.
pub open spec fn words(args: Seq<Vec<u8>>) -> Seq<Seq<u8>> {
    args.map_values(|word: Vec<u8>| word@)
}

/// Reads the arguments behind the program's name; where they ask for nothing,
/// the answer says how the program is used.
pub fn parse_args(args: &Vec<Vec<u8>>, prog: &str) -> (r: Result<ParsedCommand, String>)
    ensures
        match command(words(args@)) {
            Some(wanted) => r is Ok && r->Ok_0@ == wanted,
            None => r is Err && r->Err_0@ == usage(prog@),
        },
{
    let ghost w: Seq<Seq<u8>> = words(args@);
    if args.len() == 0 {
        return Err(usage_message(prog));
    }
    assert(w[0] == args@[0]@);
    if args.len() == 1 && bytes_equal(&args[0], "--info".as_bytes()) {
        return Ok(ParsedCommand::Info);
    }
    if bytes_equal(&args[0], "conceal".as_bytes()) {
        if args.len() >= 2 {
            assert(w[1] == args@[1]@);
            if let Some(option) = word_option(&args[1]) {
                if args.len() != 4 {
                    return Err(usage_message(prog));
                }
                return Ok(
                    ParsedCommand::Conceal {
                        option,
                        image: word_copy(&args[2]),
                        secret: word_copy(&args[3]),
                    },
                );
            }
        }
        if args.len() != 3 {
            return Err(usage_message(prog));
        }
        return Ok(
            ParsedCommand::Conceal {
                option: ConcealOption::NoOption,
                image: word_copy(&args[1]),
                secret: word_copy(&args[2]),
            },
        );
    }
    if bytes_equal(&args[0], "recover".as_bytes()) {
        if args.len() != 2 {
            return Err(usage_message(prog));
        }
        return Ok(ParsedCommand::Recover { image: word_copy(&args[1]) });
    }
    if bytes_equal(&args[0], "capsize".as_bytes()) {
        if args.len() >= 2 {
            assert(w[1] == args@[1]@);
            match word_option(&args[1]) {
                Some(ConcealOption::Reddit) => {
                    if args.len() != 3 {
                        return Err(usage_message(prog));
                    }
                    return Ok(
                        ParsedCommand::Capsize {
                            option: ConcealOption::Reddit,
                            image: word_copy(&args[2]),
                        },
                    );
                },
                Some(ConcealOption::Twitter) => {
                    if args.len() != 3 {
                        return Err(usage_message(prog));
                    }
                    return Ok(
                        ParsedCommand::Capsize {
                            option: ConcealOption::Twitter,
                            image: word_copy(&args[2]),
                        },
                    );
                },
                _ => {},
            }
        }
        if args.len() != 2 {
            return Err(usage_message(prog));
        }
        return Ok(
            ParsedCommand::Capsize { option: ConcealOption::Twitter, image: word_copy(&args[1]) },
        );
    }
    Err(usage_message(prog))
}

} // verus!
