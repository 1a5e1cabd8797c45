//! Identity resolution: from a name as written to a platform identifier,
//! by way of a snapshot of the members.

use vstd::prelude::*;
use vstd::string::*;
use crate::parse::{record_views, RecordView, ScoreRecord};
use crate::user::{User, UserView};

verus! {

/// One member of the snapshot.
#[derive(Debug, Clone, PartialEq, Eq)]
pub struct GuildMember {
    pub id: u64,
    pub display_name: String,
    pub nickname: Option<String>,
}

/// The mathematical value of a [`GuildMember`].
pub struct MemberView {
    pub id: u64,
    pub display_name: Seq<char>,
    pub nickname: Option<Seq<char>>,
}

impl View for GuildMember {
    type V = MemberView;

    open spec fn view(&self) -> MemberView {
        MemberView {
            id: self.id,
            display_name: self.display_name@,
            nickname: match self.nickname {
                Some(n) => Some(n@),
                None => None,
            },
        }
    }
}

/// The values of a sequence of members, in order.
pub open spec fn member_views(v: Seq<GuildMember>) -> Seq<MemberView> {
    Seq::new(v.len(), |i: int| v[i]@)
}

/// The member goes by `name`: it is the display name or the nickname, exactly.
pub open spec fn member_matches(m: MemberView, name: Seq<char>) -> bool {
    m.display_name == name || m.nickname == Some(name)
}

/// The identifier of the first member that goes by `name`, if there is one.
pub open spec fn first_match(members: Seq<MemberView>, name: Seq<char>) -> Option<u64>
    decreases members.len(),
{
    if members.len() == 0 {
        None
    } else if member_matches(members[0], name) {
        Some(members[0].id)
    } else {
        first_match(members.skip(1), name)
    }
}

/// A player after resolution: a name that a member goes by becomes that
/// member's identifier; every other reference stays as it is.
pub open spec fn resolve_user(members: Seq<MemberView>, u: UserView) -> UserView {
    match u {
        UserView::Id(_) => u,
        UserView::Text(name) => match first_match(members, name) {
            Some(id) => UserView::Id(id),
            None => u,
        },
    }
}

/// A record with its player resolved; the result stays as it is.
pub open spec fn resolve_record(members: Seq<MemberView>, r: RecordView) -> RecordView {
    RecordView { user: resolve_user(members, r.user), score: r.score }
}

/// The records with each player resolved.
pub open spec fn resolved_records(members: Seq<MemberView>, rs: Seq<RecordView>) -> Seq<RecordView> {
    Seq::new(rs.len(), |i: int| resolve_record(members, rs[i]))
}

/// A name is resolved exactly if some member goes by it, and then to the
/// identifier of the first such member.
pub proof fn lemma_first_match(members: Seq<MemberView>, name: Seq<char>)
    ensures
        match first_match(members, name) {
            Some(id) => exists|i: int|
                0 <= i < members.len() && member_matches(#[trigger] members[i], name) && members[i].id == id
                    && forall|j: int| 0 <= j < i ==> !member_matches(#[trigger] members[j], name),
            None => forall|j: int| 0 <= j < members.len() ==> !member_matches(#[trigger] members[j], name),
        },
    decreases members.len(),
{
    if members.len() > 0 && !member_matches(members[0], name) {
        let rest = members.skip(1);
        lemma_first_match(rest, name);
        match first_match(rest, name) {
            Some(id) => {
                let i = choose|i: int|
                    0 <= i < rest.len() && member_matches(#[trigger] rest[i], name) && rest[i].id == id
                        && forall|j: int| 0 <= j < i ==> !member_matches(#[trigger] rest[j], name);
                assert(members[i + 1] == rest[i]);
                assert forall|j: int| 0 <= j < i + 1 implies !member_matches(#[trigger] members[j], name) by {
                    if j > 0 {
                        assert(members[j] == rest[j - 1]);
                    }
                }
            },
            None => {
                assert forall|j: int| 0 <= j < members.len() implies !member_matches(
                    #[trigger] members[j],
                    name,
                ) by {
                    if j > 0 {
                        assert(members[j] == rest[j - 1]);
                    }
                }
            },
        }
    } else if members.len() > 0 {
        assert(member_matches(members[0], name));
    }
}

/// After resolution no record names by text a player that a member goes by.
pub proof fn lemma_resolved_names_unknown(members: Seq<MemberView>, rs: Seq<RecordView>, k: int)
    requires
        0 <= k < rs.len(),
    ensures
        match resolved_records(members, rs)[k].user {
            UserView::Id(_) => true,
            UserView::Text(name) => rs[k].user == UserView::Text(name) && first_match(members, name) is None,
        },
{
}

fn goes_by(m: &GuildMember, name: &String) -> (r: bool)
    ensures
        r == member_matches(m@, name@),
{
    if m.display_name.eq(name) {
        return true;
    }
    match &m.nickname {
        Some(n) => n.eq(name),
        None => false,
    }
}

/// The identifier of the first member whose display name or nickname is
/// `username`; `None` where no member goes by it.
pub fn determine_user(users: &[GuildMember], username: &str) -> (r: Option<u64>)
    ensures
        r == first_match(member_views(users@), username@),
{
    let name = String::from_str(username);
    let ghost all = member_views(users@);
    let mut i: usize = 0;
    assert(all.skip(0) =~= all);
    while i < users.len()
        invariant
            i <= users.len(),
            name@ == username@,
            all == member_views(users@),
            first_match(all, username@) == first_match(all.skip(i as int), username@),
        decreases users.len() - i,
    {
        assert(all.skip(i as int)[0] == users[i as int]@);
        if goes_by(&users[i], &name) {
            return Some(users[i].id);
        }
        assert(all.skip(i as int).skip(1) =~= all.skip(i + 1));
        i = i + 1;
    }
    None
}

/// Resolves the player of each record against the members.
pub fn resolve_records(records: &Vec<ScoreRecord>, members: &[GuildMember]) -> (out: Vec<ScoreRecord>)
    ensures
        record_views(out@) == resolved_records(member_views(members@), record_views(records@)),
{
    let mut out: Vec<ScoreRecord> = Vec::new();
    let mut i: usize = 0;
    while i < records.len()
        invariant
            i <= records.len(),
            out.len() == i,
            forall|k: int| 0 <= k < i ==> (#[trigger] out[k])@ == resolve_record(member_views(members@), records[k]@),
        decreases records.len() - i,
    {
        let rec = &records[i];
        let user = match &rec.user {
            User::Id(id) => User::Id(*id),
            User::Text(name) => match determine_user(members, name.as_str()) {
                Some(id) => User::Id(id),
                None => User::Text(name.clone()),
            },
        };
        out.push(ScoreRecord { user, score: rec.score });
        i = i + 1;
    }
    assert(record_views(out@) =~= resolved_records(member_views(members@), record_views(records@)));
    out
}

} // verus!
