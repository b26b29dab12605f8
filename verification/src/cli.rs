//! What the command line asks the program to do.

use crate::text::{
    all_digits, decimal_value, digits_stand_for_number, parse_number, parsed_number,
};
use vstd::prelude::*;

verus! {

/// What the program does.
#[derive(Clone, Copy, PartialEq, Eq, Structural, Debug)]
pub enum Mode {
    /// Serve producers and consumers.
    Server,
    /// Publish what is typed.
    Producer,
    /// Show the messages from an offset on.
    Consumer { start_offset: u64 },
    /// Run a broker, a producer and a consumer together.
    Demo,
}

/// What the arguments, with the program's name first, ask for. A starting offset that is
/// missing or not a number is 0.
pub open spec fn mode_of(args: Seq<String>) -> Mode {
    if args.len() > 1 && args[1]@ == "server"@ {
        Mode::Server
    } else if args.len() > 1 && args[1]@ == "producer"@ {
        Mode::Producer
    } else if args.len() > 1 && args[1]@ == "consumer"@ {
        Mode::Consumer {
            start_offset: if args.len() > 2 {
                match parsed_number(args[2]@) {
                    Some(offset) => offset,
                    None => 0,
                }
            } else {
                0
            },
        }
    } else {
        Mode::Demo
    }
}

/// Whether the first argument behind the program's name is `name`.
fn first_is(args: &Vec<String>, name: &str) -> (same: bool)
    ensures
        same == (args@.len() > 1 && args@[1]@ == name@),
{
    args.len() > 1 && args[1].eq(&name.to_owned())
}

/// What the arguments, with the program's name first, ask for.
pub fn select_mode(args: &Vec<String>) -> (mode: Mode)
    ensures
        mode == mode_of(args@),
{
    if first_is(args, "server") {
        Mode::Server
    } else if first_is(args, "producer") {
        Mode::Producer
    } else if first_is(args, "consumer") {
        let start_offset: u64 = if args.len() > 2 {
            match parse_number(args[2].as_str()) {
                Some(offset) => offset,
                None => 0,
            }
        } else {
            0
        };
        Mode::Consumer { start_offset }
    } else {
        Mode::Demo
    }
}

/// Whether a text is made of these decimal digits, at least one, and at most a plus sign
/// before them.
pub open spec fn shows(text: Seq<char>, digits: Seq<char>) -> bool {
    &&& text == digits || text == seq!['+'] + digits
    &&& all_digits(digits)
}

/// A consumer starts at the number that its second argument shows in decimal digits, with or
/// without a plus sign before them, whichever number it is.
pub proof fn consumer_starts_at_number(args: Seq<String>, digits: Seq<char>)
    requires
        args.len() > 2,
        args[1]@ == "consumer"@,
        shows(args[2]@, digits),
        decimal_value(digits) <= u64::MAX,
    ensures
        mode_of(args) matches Mode::Consumer { start_offset } && start_offset == decimal_value(
            digits,
        ),
{
    reveal_strlit("server");
    reveal_strlit("producer");
    reveal_strlit("consumer");
    assert("consumer"@[0] != "producer"@[0]);
    digits_stand_for_number(digits);
}

/// Two consumers that are given different numbers start at different offsets.
pub proof fn offsets_tell_numbers_apart(
    args: Seq<String>,
    digits: Seq<char>,
    other_args: Seq<String>,
    other_digits: Seq<char>,
)
    requires
        args.len() > 2 && other_args.len() > 2,
        args[1]@ == "consumer"@ && other_args[1]@ == "consumer"@,
        shows(args[2]@, digits) && shows(other_args[2]@, other_digits),
        decimal_value(digits) <= u64::MAX && decimal_value(other_digits) <= u64::MAX,
        decimal_value(digits) != decimal_value(other_digits),
    ensures
        mode_of(args) != mode_of(other_args),
{
    consumer_starts_at_number(args, digits);
    consumer_starts_at_number(other_args, other_digits);
}

/// A consumer without a second argument, or with one that is not a number of 64 bits, starts
/// at offset 0.
pub proof fn consumer_starts_at_zero(args: Seq<String>)
    requires
        args.len() > 1,
        args[1]@ == "consumer"@,
        args.len() > 2 ==> forall|digits: Seq<char>| #[trigger]
            shows(args[2]@, digits) ==> decimal_value(digits) > u64::MAX,
    ensures
        mode_of(args) == (Mode::Consumer { start_offset: 0 }),
{
    reveal_strlit("server");
    reveal_strlit("producer");
    reveal_strlit("consumer");
    assert("consumer"@[0] != "producer"@[0]);
    if args.len() > 2 {
        let text = args[2]@;
        if parsed_number(text) is Some {
            let digits = if text.len() > 0 && text.first() == '+' {
                text.drop_first()
            } else {
                text
            };
            assert(text == digits || text =~= seq!['+'] + digits);
            assert(shows(text, digits));
        }
    }
}

/// The first argument behind the program's name selects what the program does; what is not
/// one of the three names, or is missing, selects the demo.
pub proof fn first_argument_selects(args: Seq<String>)
    ensures
        args.len() > 1 && args[1]@ == "server"@ ==> mode_of(args) == Mode::Server,
        args.len() > 1 && args[1]@ == "producer"@ ==> mode_of(args) == Mode::Producer,
        args.len() > 1 && args[1]@ == "consumer"@ ==> mode_of(args) is Consumer,
        args.len() <= 1 || (args[1]@ != "server"@ && args[1]@ != "producer"@ && args[1]@
            != "consumer"@) ==> mode_of(args) == Mode::Demo,
{
    reveal_strlit("server");
    reveal_strlit("producer");
    reveal_strlit("consumer");
    assert("consumer"@[0] != "producer"@[0]);
}

} // verus!
