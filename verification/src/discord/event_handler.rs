//! What a press of a button on Discord asks for.

use vstd::prelude::*;
use crate::text::{
    chars_of, first_index, has_prefix, lemma_first_index, number_in, read_number, split_on,
    starts_with,
};

verus! {

/// The last of the pieces of the text between the occurrences of `c`.
pub open spec fn last_piece(s: Seq<char>, c: char) -> Seq<char> {
    split_on(s, c).last()
}

/// The category in which a channel is asked for: the press comes from a
/// button whose name begins with `create_channel`, and what follows the
/// last underscore of the name is the number of the category.
pub open spec fn channel_request(custom_id: Seq<char>) -> Option<u64> {
    if has_prefix(custom_id, "create_channel"@) {
        match number_in(last_piece(custom_id, '_'), u64::MAX as nat) {
            Some(category) => Some(category as u64),
            None => None,
        }
    } else {
        None
    }
}

/// What stands behind the last `c` of a text is its last piece.
proof fn lemma_last_piece(s: Seq<char>, c: char, start: int)
    requires
        0 <= start <= s.len(),
        start > 0 ==> s[start - 1] == c,
        forall|i: int| start <= i < s.len() ==> s[i] != c,
    ensures
        last_piece(s, c) == s.skip(start),
    decreases s.len(),
{
    lemma_first_index(s, c);
    let i = first_index(s, c);
    if i < s.len() {
        assert(i < start);
        let rest = s.skip(i + 1);
        assert forall|k: int| start - i - 1 <= k < rest.len() implies rest[k] != c by {
            assert(rest[k] == s[k + i + 1]);
        }
        if start - i - 1 > 0 {
            assert(rest[start - i - 2] == s[start - 1]);
        }
        lemma_last_piece(rest, c, start - i - 1);
        assert(rest.skip(start - i - 1) =~= s.skip(start));
        assert(split_on(s, c).last() == split_on(rest, c).last());
    } else {
        if start > 0 {
            assert(s[start - 1] != c);
        }
        assert(s.skip(0) =~= s);
    }
}

/// Reads from the name of a button the category in which a channel is
/// asked for, if that is what the button asks for.
pub fn event_handler(custom_id: &str) -> (r: Option<u64>)
    ensures
        r == channel_request(custom_id@),
{
    let chars = chars_of(custom_id);
    if starts_with(&chars, "create_channel").is_none() {
        return None;
    }
    let mut start: usize = chars.len();
    while start > 0 && chars[start - 1] != '_'
        invariant
            start <= chars.len(),
            forall|i: int| start <= i < chars.len() ==> chars@[i] != '_',
        decreases start,
    {
        start -= 1;
    }
    proof {
        lemma_last_piece(chars@, '_', start as int);
        assert(chars@.subrange(start as int, chars.len() as int) =~= chars@.skip(start as int));
    }
    read_number(&chars, start, chars.len(), u64::MAX)
}

} // verus!
