//! Which answer a message gets.

use vstd::prelude::*;
use crate::app::AppRegistry;
use crate::data::DataView;
use crate::line::commands::{
    Reply, ReplyView, command_reply, handle_command, handle_text_message, reply_view,
};
use crate::text::{chars_of, has_prefix, starts_with, trim, trimmed};

verus! {

/// The answer to a message: what is left of it without the white space
/// around it is a command if it begins with `!`, and a plain message if
/// not.
pub open spec fn message_reply(data: DataView, text: Seq<char>, has_user: bool) -> Option<
    ReplyView,
> {
    let message = trimmed(text);
    if has_prefix(message, "!"@) {
        command_reply(data, message, has_user)
    } else {
        Some(ReplyView::Text("たいやきくんはダンスが上手！"@))
    }
}

/// Answers a message. `None` where the answer would hold a time that
/// cannot be written out as a date.
pub fn handle_message(registry: &AppRegistry, text: &str, has_user: bool) -> (r: Option<Reply>)
    ensures
        reply_view(r) == message_reply(registry@.data, text@, has_user),
{
    let chars = chars_of(text);
    let (a, b) = trim(&chars, 0, chars.len());
    proof {
        assert(chars@.subrange(0, chars.len() as int) =~= text@);
    }
    let message = text.substring_char(a, b);
    let letters = chars_of(message);
    if starts_with(&letters, "!").is_some() {
        handle_command(registry, message, has_user)
    } else {
        Some(handle_text_message(message))
    }
}

} // verus!
