//! Switches in the environment: which words turn one on, and which turn one off.

use vstd::prelude::*;

use crate::text::{
    is_space, lower, lowered, same, trim, trimmed, white_space_around_does_not_count,
};

verus! {

/// The text of an optional string slice.
pub open spec fn text_at(s: Option<&str>) -> Option<Seq<char>> {
    match s {
        Some(s) => Some(s@),
        None => None,
    }
}

/// The value is a word for off; white space around it and capitals do not matter.
pub open spec fn is_off(value: Option<Seq<char>>) -> bool {
    value matches Some(v) && {
        let word = lowered(trimmed(v));
        word == "0"@ || word == "off"@ || word == "false"@ || word == "no"@
    }
}

/// The value is a word for on; white space around it and capitals do not matter.
pub open spec fn is_on(value: Option<Seq<char>>) -> bool {
    value matches Some(v) && {
        let word = lowered(trimmed(v));
        word == "1"@ || word == "true"@ || word == "yes"@ || word == "on"@
    }
}

/// Whether a value is a word for off.
pub fn switched_off(value: Option<&str>) -> (r: bool)
    ensures
        r == is_off(text_at(value)),
{
    match value {
        None => false,
        Some(v) => {
            let word = lower(trim(v).as_str());
            same(word.as_str(), "0") || same(word.as_str(), "off") || same(word.as_str(), "false")
                || same(word.as_str(), "no")
        },
    }
}

/// Whether a value is a word for on.
pub fn switched_on(value: Option<&str>) -> (r: bool)
    ensures
        r == is_on(text_at(value)),
{
    match value {
        None => false,
        Some(v) => {
            let word = lower(trim(v).as_str());
            same(word.as_str(), "1") || same(word.as_str(), "true") || same(word.as_str(), "yes")
                || same(word.as_str(), "on")
        },
    }
}

/// No value is a word for both.
pub proof fn on_is_not_off(value: Option<Seq<char>>)
    ensures
        !(is_on(value) && is_off(value)),
{
    reveal_strlit("0");
    reveal_strlit("off");
    reveal_strlit("false");
    reveal_strlit("no");
    reveal_strlit("1");
    reveal_strlit("true");
    reveal_strlit("yes");
    reveal_strlit("on");
    assert("0"@[0] == '0' && "1"@[0] == '1');
    assert("off"@[0] == 'o' && "false"@[0] == 'f' && "no"@[0] == 'n');
    assert("true"@[0] == 't' && "yes"@[0] == 'y' && "on"@[0] == 'o');
    assert("off"@.len() == 3 && "on"@.len() == 2);
}

/// A word switches by itself, with white space around it as without, and whatever of its
/// letters are capitals: off by `0`, `off`, `false` and `no`, on by `1`, `true`, `yes` and
/// `on`, and by nothing else. What is not set switches nothing.
pub proof fn a_word_switches_between_white_space(
    left: Seq<char>,
    word: Seq<char>,
    right: Seq<char>,
)
    requires
        forall|i: int| 0 <= i < left.len() ==> is_space(#[trigger] left[i]),
        forall|i: int| 0 <= i < right.len() ==> is_space(#[trigger] right[i]),
        word.len() > 0,
        !is_space(word[0]),
        !is_space(word.last()),
    ensures
        is_off(Some(left + word + right)) <==> (lowered(word) == "0"@ || lowered(word) == "off"@
            || lowered(word) == "false"@ || lowered(word) == "no"@),
        is_on(Some(left + word + right)) <==> (lowered(word) == "1"@ || lowered(word) == "true"@
            || lowered(word) == "yes"@ || lowered(word) == "on"@),
        !is_off(None),
        !is_on(None),
{
    white_space_around_does_not_count(left, word, right);
}

} // verus!
