//! What the user types and what the user is told.

use crate::cli::{command, usage, Command, ConcealOption};
use crate::conceal_helpers::{
    pin_notice, pin_of_bytes, platform_lines, platform_report, saved_notice,
};
use crate::decimal::decimal_text;
use crate::decrypt::pin::{accepted_pin, after_key, echo_of};
use crate::output_file::{payload_from_file, template_part};
use crate::recover::output::recovered_notice;
use crate::reddit::{capacity_report, figures_of, size_text};
use crate::runtime::JdvrifError;
use vstd::prelude::*;
use vstd::string::*;
use vstd::utf8::*;

verus! {

/// Different texts are different bytes.
proof fn lemma_words_differ(a: &str, b: &str)
    ensures
        a.spec_bytes() == b.spec_bytes() ==> a@ == b@,
{
    encode_utf8_decode_utf8(a@);
    encode_utf8_decode_utf8(b@);
}

proof fn lemma_options_differ()
    ensures
        "-b".spec_bytes() != "-r".spec_bytes(),
        "-b".spec_bytes() != "-x".spec_bytes(),
        "-r".spec_bytes() != "-x".spec_bytes(),
{
    reveal_strlit("-b");
    reveal_strlit("-r");
    reveal_strlit("-x");
    assert("-b"@[1] == 'b' && "-r"@[1] == 'r' && "-x"@[1] == 'x');
    lemma_words_differ("-b", "-r");
    lemma_words_differ("-b", "-x");
    lemma_words_differ("-r", "-x");
}

proof fn lemma_commands_differ()
    ensures
        "recover".spec_bytes() != "conceal".spec_bytes(),
        "capsize".spec_bytes() != "conceal".spec_bytes(),
        "capsize".spec_bytes() != "recover".spec_bytes(),
        "--info".spec_bytes() != "conceal".spec_bytes(),
        "--info".spec_bytes() != "recover".spec_bytes(),
        "--info".spec_bytes() != "capsize".spec_bytes(),
{
    reveal_strlit("conceal");
    reveal_strlit("recover");
    reveal_strlit("capsize");
    reveal_strlit("--info");
    assert("conceal"@[0] == 'c' && "recover"@[0] == 'r' && "--info"@[0] == '-');
    assert("conceal"@[1] == 'o' && "capsize"@[1] == 'a' && "capsize"@[0] == 'c');
    lemma_words_differ("recover", "conceal");
    lemma_words_differ("capsize", "conceal");
    lemma_words_differ("capsize", "recover");
    lemma_words_differ("--info", "conceal");
    lemma_words_differ("--info", "recover");
    lemma_words_differ("--info", "capsize");
}

/// `conceal` takes an image and a file, in this order, and a platform in front of them:
/// `-b` is Bluesky, `-r` Reddit, `-x` X-Twitter.
pub proof fn law_conceal_command(image: Seq<u8>, secret: Seq<u8>)
    ensures
        image != "-b".spec_bytes() && image != "-r".spec_bytes() && image != "-x".spec_bytes()
            ==> command(seq!["conceal".spec_bytes(), image, secret]) == Some(
            Command::Conceal { option: ConcealOption::NoOption, image, secret },
        ),
        command(seq!["conceal".spec_bytes(), "-b".spec_bytes(), image, secret]) == Some(
            Command::Conceal { option: ConcealOption::Bluesky, image, secret },
        ),
        command(seq!["conceal".spec_bytes(), "-r".spec_bytes(), image, secret]) == Some(
            Command::Conceal { option: ConcealOption::Reddit, image, secret },
        ),
        command(seq!["conceal".spec_bytes(), "-x".spec_bytes(), image, secret]) == Some(
            Command::Conceal { option: ConcealOption::Twitter, image, secret },
        ),
{
    lemma_options_differ();
    lemma_commands_differ();
}

/// `recover` takes an image.
pub proof fn law_recover_command(image: Seq<u8>)
    ensures
        command(seq!["recover".spec_bytes(), image]) == Some(Command::Recover { image }),
        command(seq!["--info".spec_bytes()]) == Some(Command::Info),
{
    lemma_commands_differ();
}

/// `capsize` takes an image, and one of the carriers in front of it; X-Twitter is
/// measured where there is none.
pub proof fn law_capsize_command(image: Seq<u8>)
    ensures
        command(seq!["capsize".spec_bytes(), "-r".spec_bytes(), image]) == Some(
            Command::Capsize { option: ConcealOption::Reddit, image },
        ),
        command(seq!["capsize".spec_bytes(), "-x".spec_bytes(), image]) == Some(
            Command::Capsize { option: ConcealOption::Twitter, image },
        ),
        image != "-r".spec_bytes() && image != "-x".spec_bytes() ==> command(
            seq!["capsize".spec_bytes(), image],
        ) == Some(Command::Capsize { option: ConcealOption::Twitter, image }),
        command(seq!["capsize".spec_bytes(), "-b".spec_bytes(), image]) is None,
{
    lemma_options_differ();
    lemma_commands_differ();
}

/// Too few words, too many, and words that are no command ask for nothing.
pub proof fn law_other_words(args: Seq<Seq<u8>>)
    ensures
        args.len() == 0 ==> command(args) is None,
        args.len() > 4 ==> command(args) is None,
        args.len() > 0 && args[0] != "conceal".spec_bytes() && args[0] != "recover".spec_bytes()
            && args[0] != "capsize".spec_bytes() && args[0] != "--info".spec_bytes() ==> command(args)
            is None,
        args.len() == 1 && args[0] != "--info".spec_bytes() ==> command(args) is None,
        args.len() > 1 && args[0] == "--info".spec_bytes() ==> command(args) is None,
        args.len() == 2 && args[0] == "conceal".spec_bytes() ==> command(args) is None,
        args.len() > 2 && args[0] == "recover".spec_bytes() ==> command(args) is None,
        args.len() > 3 && args[0] == "capsize".spec_bytes() ==> command(args) is None,
        args.len() == 4 && args[0] == "conceal".spec_bytes() && args[1] != "-b".spec_bytes()
            && args[1] != "-r".spec_bytes() && args[1] != "-x".spec_bytes() ==> command(args) is None,
{
    lemma_commands_differ();
}

/// The keys of the PIN entry: the digits are added, 8 and 127 take the last one back,
/// 10 and 13 end the entry, all others do nothing. The first twenty digits show stars.
pub proof fn law_pin_keys(typed: Seq<u8>, key: u8)
    ensures
        0x30 <= key <= 0x39 ==> after_key(typed, key) == typed.push(key),
        (key == 8 || key == 127) && typed.len() > 0 ==> after_key(typed, key) == typed.drop_last(),
        (key == 8 || key == 127) && typed.len() == 0 ==> after_key(typed, key) == typed,
        !(0x30 <= key <= 0x39) && key != 8 && key != 127 ==> after_key(typed, key) == typed,
        echo_of(typed, key) is Done <==> key == 10 || key == 13,
        echo_of(typed, key) is Star <==> 0x30 <= key <= 0x39 && typed.len() < 20,
        echo_of(typed, key) is Erase <==> (key == 8 || key == 127) && 1 <= typed.len() <= 20,
{
}

/// A PIN is read digit by digit; one that is refused stays refused whatever digit
/// follows, and none begins with zero or goes beyond 64 bits.
pub proof fn law_pins_are_read_digit_by_digit(typed: Seq<u8>, digit: u8)
    requires
        0x30 <= digit <= 0x39,
        forall|i: int| 0 <= i < typed.len() ==> 0x30 <= #[trigger] typed[i] <= 0x39,
    ensures
        accepted_pin(Seq::empty()) is None,
        accepted_pin(seq![digit]) == (if digit == 0x30 {
            None
        } else {
            Some((digit - 0x30) as u64)
        }),
        typed.len() > 0 && typed[0] == 0x30 ==> accepted_pin(typed) is None,
        accepted_pin(typed) matches Some(pin) ==> accepted_pin(typed.push(digit)) == (if pin * 10
            + (digit - 0x30) <= 0xFFFF_FFFF_FFFF_FFFF {
            Some((pin * 10 + (digit - 0x30)) as u64)
        } else {
            None
        }),
        typed.len() > 0 && accepted_pin(typed) is None ==> accepted_pin(typed.push(digit)) is None,
{
    let more = typed.push(digit);
    assert(more.drop_last() =~= typed);
    assert(seq![digit].drop_last() =~= Seq::<u8>::empty());
    assert(crate::decimal::decimal_value(seq![digit].drop_last()) == 0);
    if typed.len() > 0 {
        assert(more[0] == typed[0]);
        assert(crate::decimal::all_digits(typed));
        crate::decimal::lemma_decimal_value_bounds(typed);
    }
}

/// A random PIN is the number of its eight bytes, the lowest first.
pub proof fn law_pin_bytes(b: Seq<u8>)
    requires
        b.len() == 8,
    ensures
        pin_of_bytes(b) == b[0] + b[1] * 0x100 + b[2] * 0x1_0000 + b[3] * 0x100_0000 + b[4]
            * 0x1_0000_0000 + b[5] * 0x100_0000_0000 + b[6] * 0x1_0000_0000_0000 + b[7]
            * 0x100_0000_0000_0000,
{
    reveal_with_fuel(pin_of_bytes, 9);
    assert(b.skip(1)[0] == b[1]);
    assert(b.skip(1).skip(1)[0] == b[2]);
    assert(b.skip(1).skip(1).skip(1)[0] == b[3]);
    assert(b.skip(1).skip(1).skip(1).skip(1)[0] == b[4]);
    assert(b.skip(1).skip(1).skip(1).skip(1).skip(1)[0] == b[5]);
    assert(b.skip(1).skip(1).skip(1).skip(1).skip(1).skip(1)[0] == b[6]);
    assert(b.skip(1).skip(1).skip(1).skip(1).skip(1).skip(1).skip(1)[0] == b[7]);
}

/// The report has one line for each platform, in their order, and says so where there
/// is none.
pub proof fn law_report_lines(platforms: Seq<Seq<char>>, name: Seq<char>)
    ensures
        platform_lines(Seq::empty()) == Seq::<char>::empty(),
        platform_lines(platforms.push(name)) == platform_lines(platforms) + " ✓ "@ + name
            + "\n"@,
        platform_report(platforms.push(name)) == "\nPlatform compatibility for output image:-\n\n"@
            + platform_lines(platforms.push(name)),
        platform_report(Seq::empty()) == "\nPlatform compatibility for output image:-\n\n"@
            + "Unknown!\n\n Due to the large file size of the output JPG image, I'm unaware of any\n compatible platforms that this image can be posted on. Local use only?\n"@,
{
    assert(platforms.push(name).drop_last() =~= platforms);
}

/// What the user is told in the end: the PIN, the saved image, the recovered file.
pub proof fn law_notices(pin: u64, path: Seq<char>, size: usize)
    ensures
        pin_notice(pin) == "\nRecovery PIN: [***"@ + decimal_text(pin as nat)
            + "***]\n\nImportant: Keep your PIN safe, so that you can extract the hidden file.\n\n"@,
        saved_notice(path, size) == "\nSaved \"file-embedded\" JPG image: "@ + path + " ("@
            + decimal_text(size as nat) + " bytes).\n\nComplete!\n\n"@,
        recovered_notice(path, size) == "\nExtracted hidden file: "@ + path + " ("@ + decimal_text(
            size as nat,
        ) + " bytes).\n\nComplete! Please check your file.\n\n"@,
        usage(path) == "Usage: "@ + path
            + " conceal [-b|-r|-x] <cover_image> <secret_file>\n       "@ + path
            + " recover <cover_image>\n       "@ + path + " capsize [-r|-x] <cover_image>\n       "@
            + path + " --info"@,
{
}

/// Sizes are told in bytes and in whole kibibytes, one to a line; the capacity report
/// gives the theoretical, the conservative and the recommended figure.
pub proof fn law_capacity_text(size: usize, capacity: usize)
    ensures
        size_text(size) == decimal_text(size as nat) + " bytes (~"@ + decimal_text(
            (size / 1024) as nat,
        ) + "KiB).\n"@,
        capacity_report(capacity)
            == "Theoretical C3 capacity limit for this cover image:                    "@
            + size_text(figures_of(capacity).theoretical)
            + "Conservative maximum compressed capacity with a 20-character filename: "@
            + size_text(figures_of(capacity).conservative)
            + "Recommended  maximum compressed capacity with a 20-character filename: "@
            + size_text(figures_of(capacity).recommended),
{
}

/// Errors that name numbers name them in this order: width and height, what is needed
/// and what there is.
pub proof fn law_errors_with_numbers(a: usize, b: usize)
    ensures
        (JdvrifError::CoverTooSmall { width: a, height: b }).text() == "Image Error: Dimensions "@
            + decimal_text(a as nat) + "x"@ + decimal_text(b as nat)
            + " are too small.\nFor platform compatibility, cover image must be at least 400px for both width and height."@,
        (JdvrifError::CoverDimensions { width: a, height: b }).text() == "Image Error: Dimensions "@
            + decimal_text(a as nat) + "x"@ + decimal_text(b as nat)
            + " exceed the safe cover-image limit (4096px per dimension and 40000000 total pixels)."@,
        (JdvrifError::TransformedTooSmall { width: a, height: b }).text()
            == "Image Error: Lossless orientation/MCU trimming reduced dimensions to "@
            + decimal_text(a as nat) + "x"@ + decimal_text(b as nat)
            + ". Cover image must remain at least 400px for both width and height."@,
        (JdvrifError::CarrierCapacity { needed: a, capacity: b }).text()
            == "File Size Error: Encrypted payload needs "@ + decimal_text(a as nat)
            + " bytes, above the "@ + decimal_text(b as nat)
            + "-byte capacity of this cover image."@,
        (JdvrifError::BlueskyPayloadTooLarge { payload: a, limit: b }).text()
            == "Data File Size Error: Encrypted payload is "@ + decimal_text(a as nat)
            + " bytes, above the "@ + decimal_text(b as nat)
            + "-byte limit for the Bluesky platform.\n                      Use a smaller data file, or compress it yourself first."@,
        (JdvrifError::CoverQuality { quality: a }).text() == "Image Error: Estimated quality "@
            + decimal_text(a as nat)
            + " exceeds maximum (97).\nFor platform compatibility, cover image quality must be 97 or lower."@,
        (JdvrifError::CoverColorSpace { components: a }).text()
            == "Image Error: Unsupported JPEG color space ("@ + decimal_text(a as nat)
            + " components). CMYK/YCCK cover images must be converted to RGB before use."@,
{
}

/// The payload of an image is the template, then the encrypted file: of the bytes from
/// `begin` on, those of the template come first, and the file gives the rest.
pub proof fn law_payload_parts(template: Seq<u8>, begin: int, size: int)
    requires
        0 <= begin,
        0 <= size,
    ensures
        template_part(template, begin, size).len() + payload_from_file(
            template.len() as int,
            begin,
            size,
        ) == size,
        forall|i: int|
            0 <= i < size && begin + i < template.len() ==> #[trigger] template_part(
                template,
                begin,
                size,
            )[i] == template[begin + i],
        begin + size <= template.len() ==> payload_from_file(template.len() as int, begin, size)
            == 0,
        begin >= template.len() ==> payload_from_file(template.len() as int, begin, size) == size,
{
}

} // verus!
