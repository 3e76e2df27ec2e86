//! The banner that reports what happened, and the settings that every window shares.

use vstd::prelude::*;
use vstd::string::StringExecFns;

verus! {

/// What the banner has to say. A message comes with the time at which it arose, in
/// milliseconds since the epoch.
#[derive(Debug, PartialEq, Eq)]
pub enum Message {
    /// Nothing to say.
    Empty,
    Success(String, i64),
    Info(String, i64),
    Error(String, i64),
}

impl Clone for Message {
    fn clone(&self) -> (res: Self)
        ensures
            res == *self,
    {
        match self {
            Message::Empty => Message::Empty,
            Message::Success(text, at) => Message::Success(text.clone(), *at),
            Message::Info(text, at) => Message::Info(text.clone(), *at),
            Message::Error(text, at) => Message::Error(text.clone(), *at),
        }
    }
}

/// Whether the banner is in view.
#[derive(Clone, Copy, Debug, PartialEq, Eq, Structural)]
pub struct StatusBarState {
    pub shown: bool,
}

/// What happens to the banner.
pub enum StatusBarEvent<'a> {
    /// The message to show has changed to this one.
    Changed(&'a Message),
    /// The message has been in view for as long as it is meant to be.
    Expired,
}

/// For how long a message stays in view, in milliseconds.
pub const SHOWN_FOR_MS: u32 = 2000;

impl StatusBarState {
    /// The banner out of view.
    pub fn new() -> (state: StatusBarState)
        ensures
            !state.shown,
    {
        StatusBarState { shown: false }
    }

    /// A message that says something brings the banner into view, and time takes it out
    /// again; the change to no message leaves the banner as it is.
    pub fn reduce(self, event: StatusBarEvent) -> (after: StatusBarState)
        ensures
            after.shown == match event {
                StatusBarEvent::Changed(message) => *message != Message::Empty || self.shown,
                StatusBarEvent::Expired => false,
            },
    {
        match event {
            StatusBarEvent::Changed(message) => match message {
                Message::Empty => self,
                _ => StatusBarState { shown: true },
            },
            StatusBarEvent::Expired => StatusBarState { shown: false },
        }
    }
}

/// The word that tells the kinds of message apart; a message that says nothing has none.
pub open spec fn kind_word(message: Message) -> Seq<char> {
    match message {
        Message::Empty => Seq::empty(),
        Message::Success(_, _) => "success"@,
        Message::Info(_, _) => "info"@,
        Message::Error(_, _) => "error"@,
    }
}

/// The text of a message; a message that says nothing has none.
pub open spec fn text_of(message: Message) -> Seq<char> {
    match message {
        Message::Empty => Seq::empty(),
        Message::Success(text, _) => text@,
        Message::Info(text, _) => text@,
        Message::Error(text, _) => text@,
    }
}

/// The classes of the banner: that it is a status, whether it is hidden, and its kind.
pub open spec fn banner_class(message: Message, shown: bool) -> Seq<char> {
    "status "@ + (if shown {
        Seq::empty()
    } else {
        "hidden"@
    }) + " "@ + kind_word(message)
}

/// The banner for a message: its classes and its text. There is no banner for a message
/// that says nothing.
pub fn status_banner(message: &Message, shown: bool) -> (banner: Option<(String, String)>)
    ensures
        banner is None <==> *message == Message::Empty,
        banner matches Some(b) ==> b.0@ == banner_class(*message, shown) && b.1@ == text_of(
            *message,
        ),
{
    let mut class = String::from_str("status ");
    let ghost start = class@;
    if !shown {
        class.append("hidden");
    } else {
        assert(start + Seq::<char>::empty() =~= start);
    }
    class.append(" ");
    match message {
        Message::Empty => None,
        Message::Success(text, _) => {
            class.append("success");
            Some((class, text.clone()))
        },
        Message::Info(text, _) => {
            class.append("info");
            Some((class, text.clone()))
        },
        Message::Error(text, _) => {
            class.append("error");
            Some((class, text.clone()))
        },
    }
}

/// What the user has set.
#[derive(Debug, PartialEq, Eq)]
pub struct AppSettings {
    /// Where the server is.
    pub server_url: String,
}

impl Clone for AppSettings {
    fn clone(&self) -> (res: Self)
        ensures
            res == *self,
    {
        AppSettings { server_url: self.server_url.clone() }
    }
}

impl AppSettings {
    /// No server is set.
    pub fn new() -> (settings: AppSettings)
        ensures
            settings.server_url@.len() == 0,
    {
        AppSettings { server_url: String::new() }
    }

    /// Whether taking `next` in place of these settings changes the server, so that
    /// what was fetched from the old one has to be fetched again.
    pub fn server_changes(&self, next: &AppSettings) -> (changes: bool)
        ensures
            changes == (self.server_url@ != next.server_url@),
    {
        self.server_url != next.server_url
    }
}

/// What the whole application shows: the last message, and whether it is in edition.
#[derive(Clone, Debug, PartialEq, Eq)]
pub struct AppState {
    pub last_error: Message,
    pub edition: bool,
}

impl AppState {
    /// Nothing to report, and not in edition.
    pub fn new() -> (state: AppState)
        ensures
            state == (AppState { last_error: Message::Empty, edition: false }),
    {
        AppState { last_error: Message::Empty, edition: false }
    }

    /// The state with `status` as the message to show.
    pub fn with_status(self, status: Message) -> (after: AppState)
        ensures
            after == (AppState { last_error: status, ..self }),
    {
        AppState { last_error: status, edition: self.edition }
    }
}

} // verus!
