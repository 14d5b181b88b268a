//! The data model: users and the notes an antenna collects.

use vstd::prelude::*;

verus! {

/// The author of a note: an account identifier and, for accounts on a
/// remote server, that server's host name.
#[derive(Debug, Clone)]
pub struct User {
    pub id: String,
    /// `None` means the account lives on the home server.
    pub host: Option<String>,
}

/// One fetched post: its author and its text.
#[derive(Debug, Clone)]
pub struct Note {
    pub user: User,
    pub text: String,
}

/// The mathematical value of a `User`.
pub struct UserView {
    pub id: Seq<char>,
    pub host: Option<Seq<char>>,
}

/// The mathematical value of a `Note`.
pub struct NoteView {
    pub user: UserView,
    pub text: Seq<char>,
}

impl View for User {
    type V = UserView;

    open spec fn view(&self) -> UserView {
        UserView {
            id: self.id@,
            host: match self.host {
                Some(h) => Some(h@),
                None => None,
            },
        }
    }
}

impl View for Note {
    type V = NoteView;

    open spec fn view(&self) -> NoteView {
        NoteView { user: self.user@, text: self.text@ }
    }
}

/// The mathematical values of a sequence of notes.
pub open spec fn views_of(notes: Seq<Note>) -> Seq<NoteView> {
    notes.map_values(|n: Note| n@)
}

impl User {
    /// Builds a user from its parts.
    pub fn new(id: String, host: Option<String>) -> (r: User)
        ensures
            r@.id == id@,
            r@.host == (match host {
                Some(h) => Some(h@),
                None => None::<Seq<char>>,
            }),
    {
        User { id, host }
    }
}

impl Note {
    /// Builds a note from its parts.
    pub fn new(user: User, text: String) -> (r: Note)
        ensures
            r@.user == user@,
            r@.text == text@,
    {
        Note { user, text }
    }
}

} // verus!
