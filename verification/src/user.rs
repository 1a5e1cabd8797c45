//! Player identities: either a platform identifier or the name as written.

use vstd::prelude::*;
use vstd::string::*;
use crate::text::{decimal, push_decimal};

verus! {

/// The mathematical value of a [`User`].
pub enum UserView {
    Id(u64),
    Text(Seq<char>),
}

/// A reference to a player.
#[derive(Debug, Clone, PartialEq, Eq, Hash)]
pub enum User {
    /// A platform identifier.
    Id(u64),
    /// A display name as it was written in the chat.
    Text(String),
}

impl View for User {
    type V = UserView;

    open spec fn view(&self) -> UserView {
        match self {
            User::Id(id) => UserView::Id(*id),
            User::Text(name) => UserView::Text(name@),
        }
    }
}

/// The mention text of a player: `<@ID>` for an identifier, `@name` for a name.
pub open spec fn mention_text(u: UserView) -> Seq<char> {
    match u {
        UserView::Id(id) => "<@"@ + decimal(id as nat) + ">"@,
        UserView::Text(name) => "@"@ + name,
    }
}

impl User {
    /// Whether two references denote the same player: same variant, same payload.
    pub fn same(&self, other: &User) -> (r: bool)
        ensures
            r == (self@ == other@),
    {
        match self {
            User::Id(a) => match other {
                User::Id(b) => *a == *b,
                User::Text(_) => false,
            },
            User::Text(a) => match other {
                User::Id(_) => false,
                User::Text(b) => a.eq(b),
            },
        }
    }

    /// The text that mentions the player in a message.
    pub fn mention(&self) -> (r: String)
        ensures
            r@ == mention_text(self@),
    {
        match self {
            User::Id(id) => {
                let mut r = String::from_str("<@");
                push_decimal(&mut r, *id as u128);
                r.append(">");
                r
            },
            User::Text(name) => {
                let mut r = String::from_str("@");
                r.append(name.as_str());
                r
            },
        }
    }

    /// A copy of this reference with the same value.
    pub fn duplicate(&self) -> (r: User)
        ensures
            r@ == self@,
    {
        match self {
            User::Id(a) => User::Id(*a),
            User::Text(a) => User::Text(a.clone()),
        }
    }
}

} // verus!
