//! Version gating for the external image tool.

use vstd::prelude::*;
use vstd::string::*;
use crate::text::{concat3, pieces, split, trim, trimmed};

verus! {

/// `installed >= minimum` in the lexicographic order on `(major, minor)`.
pub open spec fn version_at_least(installed: (i32, i32), minimum: (i32, i32)) -> bool {
    installed.0 > minimum.0 || (installed.0 == minimum.0 && installed.1 >= minimum.1)
}

/// Whether the installed `(major, minor)` version is at least `minimum`.
pub fn is_at_least_major_minor(installed: (i32, i32), minimum: (i32, i32)) -> (at_least: bool)
    ensures
        at_least == version_at_least(installed, minimum),
{
    if installed.0 < minimum.0 {
        false
    } else if installed.0 == minimum.0 {
        installed.1 >= minimum.1
    } else {
        true
    }
}

/// Why an image could not be processed.
#[derive(Debug)]
pub enum Error {
    /// The message says what went wrong.
    Other(String),
}

/// The image tool as it is installed: where it works, and whether it knows
/// the flag that keeps the colour profile.
pub struct ImageProcessor {
    pub working_directory: String,
    pub vips_has_keep_flag: bool,
}

/// The directory in which uploads are processed.
pub open spec fn working_directory() -> Seq<char> {
    "/tmp/mise-images"@
}

/// Whether the installed version of the image tool knows the flag that keeps
/// the colour profile: it does from version 8.15 on.
pub fn has_keep_flag(installed: (i32, i32)) -> (known: bool)
    ensures
        known == version_at_least(installed, (8, 15)),
{
    is_at_least_major_minor(installed, (8, 15))
}

impl ImageProcessor {
    /// The image tool of the given version.
    pub fn of_version(installed: (i32, i32)) -> (processor: ImageProcessor)
        ensures
            processor.working_directory@ == working_directory(),
            processor.vips_has_keep_flag == version_at_least(installed, (8, 15)),
    {
        ImageProcessor {
            working_directory: String::from_str("/tmp/mise-images"),
            vips_has_keep_flag: has_keep_flag(installed),
        }
    }
}

/// The flag by which the image tool drops the metadata of an image: a tool
/// that can keep the colour profile keeps it, an older one strips everything.
pub fn metadata_flag(vips_has_keep_flag: bool) -> (flag: &'static str)
    ensures
        flag@ == if vips_has_keep_flag {
            "--keep icc"@
        } else {
            "--strip"@
        },
{
    if vips_has_keep_flag {
        "--keep icc"
    } else {
        "--strip"
    }
}

/// The commands that turn the upload in `file_dir` into a JPEG without
/// metadata.
pub open spec fn vips_commands(file_dir: Seq<char>, vips_has_keep_flag: bool) -> Seq<char> {
    "vips jpegsave "@ + file_dir + "-original "@ + file_dir + "-jpg.jpg && vips autorot "@
        + file_dir + "-jpg.jpg "@ + file_dir + "-rotated.jpg && vips jpegsave "@ + file_dir
        + "-rotated.jpg "@ + file_dir + "-stripped.jpg --Q 75 "@ + if vips_has_keep_flag {
        "--keep icc"@
    } else {
        "--strip"@
    }
}

/// The commands that turn the upload in `file_dir` into a JPEG without
/// metadata: the upload is converted to JPEG, then rotated as its metadata
/// says, then saved again without the metadata.
pub fn vips_command(file_dir: &str, vips_has_keep_flag: bool) -> (command: String)
    ensures
        command@ == vips_commands(file_dir@, vips_has_keep_flag),
{
    let mut command = String::from_str("vips jpegsave ");
    command.append(file_dir);
    command.append("-original ");
    command.append(file_dir);
    command.append("-jpg.jpg && vips autorot ");
    command.append(file_dir);
    command.append("-jpg.jpg ");
    command.append(file_dir);
    command.append("-rotated.jpg && vips jpegsave ");
    command.append(file_dir);
    command.append("-rotated.jpg ");
    command.append(file_dir);
    command.append("-stripped.jpg --Q 75 ");
    command.append(metadata_flag(vips_has_keep_flag));
    command
}

/// The value of a decimal digit.
pub open spec fn digit_value(c: char) -> Option<int> {
    if '0' <= c <= '9' {
        Some(c as int - '0' as int)
    } else {
        None
    }
}

/// The number that a text of decimal digits, and of at least one, stands for.
pub open spec fn decimal(digits: Seq<char>) -> Option<int>
    decreases digits.len(),
{
    if digits.len() == 0 {
        None
    } else {
        match digit_value(digits.last()) {
            None => None,
            Some(unit) => if digits.len() == 1 {
                Some(unit)
            } else {
                match decimal(digits.drop_last()) {
                    Some(tens) => Some(10 * tens + unit),
                    None => None,
                }
            },
        }
    }
}

/// The number that a decimal text stands for, if it stands for one that
/// fits 32 bits: the text is a plus or a minus sign, or none, and then
/// decimal digits and nothing else.
pub open spec fn parsed_i32(text: Seq<char>) -> Option<i32> {
    let signed = text.len() > 0 && (text[0] == '-' || text[0] == '+');
    let digits = if signed {
        text.drop_first()
    } else {
        text
    };
    match decimal(digits) {
        Some(value) => {
            let number = if signed && text[0] == '-' {
                -value
            } else {
                value
            };
            if i32::MIN <= number <= i32::MAX {
                Some(number as i32)
            } else {
                None
            }
        },
        None => None,
    }
}

/// Every character of a text that stands for a number is a decimal digit.
pub proof fn lemma_decimal_digits(digits: Seq<char>, j: int)
    requires
        decimal(digits) is Some,
        0 <= j < digits.len(),
    ensures
        digit_value(digits[j]) is Some,
    decreases digits.len(),
{
    if j < digits.len() - 1 {
        assert(digits.drop_last()[j] == digits[j]);
        lemma_decimal_digits(digits.drop_last(), j);
    }
}

/// The most that is kept of a number while its digits are read: every
/// number from here on is beyond 32 bits, with either sign.
pub const BEYOND_I32: i64 = 0x8000_0001;

/// The number that a decimal text stands for, if it stands for one that
/// fits 32 bits.
pub fn parse_i32(text: &str) -> (number: Option<i32>)
    ensures
        number == parsed_i32(text@),
{
    let n = text.unicode_len();
    if n == 0 {
        return None;
    }
    let first = text.get_char(0);
    let signed = first == '-' || first == '+';
    let from: usize = if signed {
        1
    } else {
        0
    };
    let ghost digits = if signed {
        text@.drop_first()
    } else {
        text@
    };
    if from == n {
        assert(digits.len() == 0);
        return None;
    }
    let mut kept: i64 = 0;
    let ghost mut value: int = 0;
    let mut i: usize = from;
    while i < n
        invariant
            from <= i <= n,
            n == text@.len(),
            from < n,
            first == text@[0],
            signed == (first == '-' || first == '+'),
            digits == if signed {
                text@.drop_first()
            } else {
                text@
            },
            digits.len() == n - from,
            forall|j: int| 0 <= j < digits.len() ==> digits[j] == text@[j + from],
            i == from ==> value == 0,
            i > from ==> decimal(digits.subrange(0, i - from)) == Some(value),
            0 <= value,
            kept == if value < BEYOND_I32 {
                value
            } else {
                BEYOND_I32 as int
            },
        decreases n - i,
    {
        let c = text.get_char(i);
        let ghost read = digits.subrange(0, i - from + 1);
        proof {
            assert(read.last() == c);
            assert(read.drop_last() =~= digits.subrange(0, i - from));
        }
        if !('0' <= c && c <= '9') {
            proof {
                assert(digits[i - from] == c);
                if decimal(digits) is Some {
                    lemma_decimal_digits(digits, i - from);
                }
            }
            return None;
        }
        let unit: i64 = (c as u32 - '0' as u32) as i64;
        let next: i64 = 10 * kept + unit;
        kept = if next < BEYOND_I32 {
            next
        } else {
            BEYOND_I32
        };
        proof {
            value = 10 * value + unit;
            assert(decimal(read) == Some(value));
        }
        i += 1;
    }
    proof {
        assert(digits.subrange(0, n - from) =~= digits);
    }
    let negative = first == '-';
    if negative {
        if kept <= 0x8000_0000 {
            Some((-kept) as i32)
        } else {
            None
        }
    } else {
        if kept <= 0x7fff_ffff {
            Some(kept as i32)
        } else {
            None
        }
    }
}

/// The version that the image tool reports: the tool prints its name, a
/// hyphen and three numbers with points between them, and the first two of
/// the numbers are the version. `None` if that is not what was printed.
pub open spec fn vips_version(output: Seq<char>) -> Option<(i32, i32)> {
    let raw = pieces(trimmed(output), '-');
    if raw.len() < 2 {
        None
    } else {
        let parts = pieces(raw[1], '.');
        if parts.len() != 3 {
            None
        } else {
            match (parsed_i32(parts[0]), parsed_i32(parts[1])) {
                (Some(major), Some(minor)) => Some((major, minor)),
                _ => None,
            }
        }
    }
}

/// The version that the image tool reports. Fails exactly if what the tool
/// printed is not its name, a hyphen and three numbers with points between
/// them.
pub fn find_vips_version(vips_version_out: &str) -> (found: Result<(i32, i32), Error>)
    ensures
        match found {
            Ok(version) => vips_version(vips_version_out@) == Some(version),
            Err(_) => vips_version(vips_version_out@) is None,
        },
{
    let raw_split = split(trim(vips_version_out), '-');
    if raw_split.len() < 2 {
        return Err(Error::Other(concat3("invalid vips version: ", vips_version_out, "")));
    }
    let ghost raw = raw_split.deep_view();
    assert(raw[1] == raw_split[1]@);
    let parts = split(raw_split[1].as_str(), '.');
    if parts.len() != 3 {
        return Err(Error::Other(concat3("invalid vips version: ", raw_split[1].as_str(), "")));
    }
    let ghost numbers = parts.deep_view();
    assert(numbers[0] == parts[0]@ && numbers[1] == parts[1]@);
    let major = match parse_i32(parts[0].as_str()) {
        Some(major) => major,
        None => {
            return Err(Error::Other(String::from_str("expected number")));
        },
    };
    let minor = match parse_i32(parts[1].as_str()) {
        Some(minor) => minor,
        None => {
            return Err(Error::Other(String::from_str("expected number")));
        },
    };
    Ok((major, minor))
}

} // verus!
