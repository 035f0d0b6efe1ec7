//! The Bot API values that decisions are made of and about.

use vstd::prelude::*;

use crate::text;

verus! {

/// The parse mode of all messages.
pub const PARSE_MODE_HTML: &'static str = "HTML";

/// What the Bot API says of a chat's member.
#[derive(Debug)]
pub struct ChatMember {
    /// The kind of membership.
    pub status: String,
    /// Whether the member may post, where the API says so.
    pub can_post_messages: Option<bool>,
    /// Whether the member may delete messages, where the API says so.
    pub can_delete_messages: Option<bool>,
}

/// Why a request to the Bot API failed.
#[derive(Debug)]
pub struct TelegramClientError {
    /// The failure in words.
    pub message: String,
}

impl View for TelegramClientError {
    type V = Seq<char>;

    open spec fn view(&self) -> Seq<char> {
        self.message@
    }
}

/// A request to send a message.
#[derive(Debug)]
pub struct SendMessage {
    /// The chat to send to.
    pub chat_id: i64,
    /// The message.
    pub text: String,
    /// How the message is to be parsed.
    pub parse_mode: Option<String>,
    /// The thread to send to.
    pub message_thread_id: Option<i64>,
}

/// What a request to send a message holds.
pub struct SendMessageView {
    pub chat_id: i64,
    pub text: Seq<char>,
    pub parse_mode: Option<Seq<char>>,
    pub message_thread_id: Option<i64>,
}

impl View for SendMessage {
    type V = SendMessageView;

    open spec fn view(&self) -> SendMessageView {
        SendMessageView {
            chat_id: self.chat_id,
            text: self.text@,
            parse_mode: text::optional_text(self.parse_mode),
            message_thread_id: self.message_thread_id,
        }
    }
}

/// The request to send `message` in HTML to a thread of a chat.
pub open spec fn html_message(
    chat_id: i64,
    message: Seq<char>,
    message_thread_id: Option<i64>,
) -> SendMessageView {
    SendMessageView {
        chat_id,
        text: message,
        parse_mode: Some(PARSE_MODE_HTML@),
        message_thread_id,
    }
}

impl SendMessage {
    /// The request to send `text` in HTML to the chat `chat_id`.
    pub fn text(chat_id: i64, text: String) -> (request: Self)
        ensures
            request@ == html_message(chat_id, text@, None),
    {
        SendMessage {
            chat_id,
            text,
            parse_mode: Some(PARSE_MODE_HTML.to_owned()),
            message_thread_id: None,
        }
    }
}

/// A request to replace the text of a message.
#[derive(Debug)]
pub struct EditMessageText {
    /// The chat that the message is in.
    pub chat_id: i64,
    /// The message to change.
    pub message_id: i64,
    /// Its new text.
    pub text: String,
    /// How the text is to be parsed.
    pub parse_mode: Option<String>,
}

/// What a request to replace the text of a message holds.
pub struct EditMessageTextView {
    pub chat_id: i64,
    pub message_id: i64,
    pub text: Seq<char>,
    pub parse_mode: Option<Seq<char>>,
}

impl View for EditMessageText {
    type V = EditMessageTextView;

    open spec fn view(&self) -> EditMessageTextView {
        EditMessageTextView {
            chat_id: self.chat_id,
            message_id: self.message_id,
            text: self.text@,
            parse_mode: text::optional_text(self.parse_mode),
        }
    }
}

/// The request to replace the text of a message by `message` in HTML.
pub open spec fn html_edit(
    chat_id: i64,
    message_id: i64,
    message: Seq<char>,
) -> EditMessageTextView {
    EditMessageTextView { chat_id, message_id, text: message, parse_mode: Some(PARSE_MODE_HTML@) }
}

impl EditMessageText {
    /// The request to replace the text of a message, to be parsed as plain text.
    pub fn new(chat_id: i64, message_id: i64, text: String) -> (request: Self)
        ensures
            request@ == (EditMessageTextView {
                chat_id,
                message_id,
                text: text@,
                parse_mode: None,
            }),
    {
        EditMessageText { chat_id, message_id, text, parse_mode: None }
    }
}

/// A request is made of what it was asked for with, and says that it is HTML.
pub proof fn law_requests_hold_what_they_are_made_of(
    chat_id: i64,
    message_id: i64,
    message: Seq<char>,
    thread: Option<i64>,
)
    ensures
        html_message(chat_id, message, thread).chat_id == chat_id,
        html_message(chat_id, message, thread).text == message,
        html_message(chat_id, message, thread).message_thread_id == thread,
        html_message(chat_id, message, thread).parse_mode == Some("HTML"@),
        html_edit(chat_id, message_id, message).chat_id == chat_id,
        html_edit(chat_id, message_id, message).message_id == message_id,
        html_edit(chat_id, message_id, message).text == message,
        html_edit(chat_id, message_id, message).parse_mode == Some("HTML"@),
{
}

/// What a request is said to hold is what its fields hold.
pub proof fn law_views_show_the_fields(request: SendMessage, edit: EditMessageText)
    ensures
        request@.chat_id == request.chat_id,
        request@.text == request.text@,
        request@.message_thread_id == request.message_thread_id,
        request.parse_mode matches Some(mode) ==> request@.parse_mode == Some(mode@),
        request.parse_mode is None ==> request@.parse_mode is None,
        edit@.chat_id == edit.chat_id,
        edit@.message_id == edit.message_id,
        edit@.text == edit.text@,
        edit.parse_mode matches Some(mode) ==> edit@.parse_mode == Some(mode@),
        edit.parse_mode is None ==> edit@.parse_mode is None,
{
}

} // verus!
