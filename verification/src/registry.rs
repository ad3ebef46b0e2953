//! Room codes, and the directory that leads from a code to its room.

use std::collections::HashMap;
use vstd::prelude::*;

use crate::decimal::chars_of;
use crate::message::{ClientMessage, ClientMessageView};
use crate::random::random_below;

verus! {

broadcast use vstd::std_specs::hash::group_hash_axioms;

/// The number of letters of a room code.
pub const CODE_LENGTH: usize = 6;

/// Whether `c` is one of the letters from a to z, in lower case.
pub open spec fn is_lower(c: char) -> bool {
    'a' <= c <= 'z'
}

/// Whether `s` has the form of a room code: six lower-case letters.
pub open spec fn is_room_code(s: Seq<char>) -> bool {
    &&& s.len() == 6
    &&& forall|i: int| 0 <= i < s.len() ==> is_lower(#[trigger] s[i])
}

/// The letters of `s` read as the digits of a number in base 26, `a` for
/// zero.
pub open spec fn letters_value(s: Seq<char>) -> int
    decreases s.len(),
{
    if s.len() == 0 {
        0
    } else {
        letters_value(s.drop_last()) * 26 + (s.last() as int - 'a' as int)
    }
}

/// Lower-case letters write no negative number.
proof fn lemma_letters_nonnegative(s: Seq<char>)
    requires
        forall|i: int| 0 <= i < s.len() ==> is_lower(#[trigger] s[i]),
    ensures
        letters_value(s) >= 0,
    decreases s.len(),
{
    if s.len() > 0 {
        lemma_letters_nonnegative(s.drop_last());
        assert(is_lower(s.last()));
    }
}

/// Two texts of lower-case letters and one length that write the same number
/// are the same text.
pub proof fn lemma_letters_value_injective(a: Seq<char>, b: Seq<char>)
    requires
        a.len() == b.len(),
        forall|i: int| 0 <= i < a.len() ==> is_lower(#[trigger] a[i]),
        forall|i: int| 0 <= i < b.len() ==> is_lower(#[trigger] b[i]),
        letters_value(a) == letters_value(b),
    ensures
        a == b,
    decreases a.len(),
{
    if a.len() > 0 {
        assert(is_lower(a.last()) && is_lower(b.last()));
        lemma_letters_nonnegative(a.drop_last());
        lemma_letters_nonnegative(b.drop_last());
        lemma_letters_value_injective(a.drop_last(), b.drop_last());
        assert(a =~= a.drop_last().push(a.last()));
        assert(b =~= b.drop_last().push(b.last()));
    } else {
        assert(a =~= b);
    }
}

/// The number that the room code `code` writes; `None` where `code` has not
/// the form of a room code.
pub fn room_code_index(code: &str) -> (index: Option<u64>)
    ensures
        index is Some == is_room_code(code@),
        index matches Some(v) ==> v == letters_value(code@),
{
    let chars = chars_of(code);
    if chars.len() != 6 {
        return None;
    }
    let mut value: u64 = 0;
    let mut i: usize = 0;
    assert(chars@.subrange(0, 0) =~= Seq::<char>::empty());
    while i < 6
        invariant
            i <= 6,
            chars@.len() == 6,
            chars@ == code@,
            forall|k: int| 0 <= k < i ==> is_lower(#[trigger] chars@[k]),
            value == letters_value(chars@.subrange(0, i as int)),
            value < 400_000_000,
            i < 6 ==> value < 12_000_000,
        decreases 6 - i,
    {
        let c = chars[i];
        if !(c >= 'a' && c <= 'z') {
            assert(!is_lower(code@[i as int]));
            return None;
        }
        let ghost longer = chars@.subrange(0, i + 1);
        assert(longer.drop_last() =~= chars@.subrange(0, i as int));
        assert(longer.last() == c);
        proof {
            lemma_room_code_bound(chars@.subrange(0, i as int));
        }
        value = value * 26 + (c as u32 - 'a' as u32) as u64;
        proof {
            lemma_room_code_bound(longer);
        }
        i = i + 1;
    }
    assert(chars@.subrange(0, 6) =~= chars@);
    Some(value)
}

/// The largest number that `n` letters write.
pub open spec fn letters_limit(n: nat) -> int
    decreases n,
{
    if n == 0 {
        1
    } else {
        26 * letters_limit((n - 1) as nat)
    }
}

/// Up to six lower-case letters write a number below their limit.
proof fn lemma_room_code_bound(s: Seq<char>)
    requires
        s.len() <= 6,
        forall|i: int| 0 <= i < s.len() ==> is_lower(#[trigger] s[i]),
    ensures
        0 <= letters_value(s) < letters_limit(s.len()),
        s.len() < 6 ==> letters_value(s) < 12_000_000,
        letters_value(s) < 400_000_000,
    decreases s.len(),
{
    reveal_with_fuel(letters_limit, 7);
    if s.len() > 0 {
        lemma_room_code_bound(s.drop_last());
        assert(is_lower(s.last()));
    }
}

/// A fresh room code: six letters, each drawn at random.
pub fn random_room_code() -> (code: String)
    ensures
        is_room_code(code@),
{
    let mut code = String::new();
    let mut i: usize = 0;
    while i < 6
        invariant
            i <= 6,
            code@.len() == i,
            forall|k: int| 0 <= k < i ==> is_lower(#[trigger] code@[k]),
        decreases 6 - i,
    {
        let letter = random_below(97, 123);
        code.push(letter as char);
        i = i + 1;
    }
    code
}

/// The directory of the rooms that are open, each under its code.
pub struct Registry<H> {
    rooms: HashMap<u64, H>,
}

impl<H> View for Registry<H> {
    type V = Map<Seq<char>, H>;

    closed spec fn view(&self) -> Map<Seq<char>, H> {
        Map::new(
            |code: Seq<char>| is_room_code(code) && self.rooms@.contains_key(letters_value(code) as u64),
            |code: Seq<char>| self.rooms@[letters_value(code) as u64],
        )
    }
}

impl<H> Registry<H> {
    /// A directory without rooms.
    pub fn new() -> (registry: Registry<H>)
        ensures
            registry@ == Map::<Seq<char>, H>::empty(),
    {
        let registry = Registry { rooms: HashMap::new() };
        assert(registry@ =~= Map::<Seq<char>, H>::empty());
        registry
    }

    /// Every code of the directory has the form of a room code.
    pub proof fn lemma_codes(&self)
        ensures
            forall|code: Seq<char>| self@.contains_key(code) ==> is_room_code(code),
    {
    }

    /// The room under `code`; `None` where there is none, and where `code`
    /// has not the form of a room code.
    pub fn lookup(&self, code: &str) -> (found: Option<&H>)
        ensures
            found matches Some(handle) ==> self@.contains_key(code@) && *handle == self@[code@],
            found is None ==> !self@.contains_key(code@),
    {
        match room_code_index(code) {
            Some(index) => self.rooms.get(&index),
            None => None,
        }
    }

    /// Whether a room stands under `code`.
    pub fn contains(&self, code: &str) -> (found: bool)
        ensures
            found == self@.contains_key(code@),
    {
        match room_code_index(code) {
            Some(index) => self.rooms.contains_key(&index),
            None => false,
        }
    }

    /// Enters `handle` under `code`, unless a room stands there already or
    /// `code` has not the form of a room code: then the directory stays as it
    /// is and the handle comes back. Test and entry are one step.
    pub fn claim(&mut self, code: &str, handle: H) -> (refused: Option<H>)
        ensures
            is_room_code(code@) && !old(self)@.contains_key(code@) ==> refused is None && final(self)@ == old(self)@.insert(code@, handle),
            !is_room_code(code@) || old(self)@.contains_key(code@) ==> refused == Some(handle)
                && final(self)@ == old(self)@,
    {
        match room_code_index(code) {
            Some(index) => {
                if self.rooms.contains_key(&index) {
                    Some(handle)
                } else {
                    self.rooms.insert(index, handle);
                    proof {
                        let after = self@;
                        let wanted = old(self)@.insert(code@, handle);
                        assert forall|other: Seq<char>| after.contains_key(other)
                            == wanted.contains_key(other) by {
                            if is_room_code(other) && letters_value(other) == letters_value(
                                code@,
                            ) {
                                lemma_letters_value_injective(other, code@);
                            }
                            if is_room_code(other) {
                                lemma_room_code_bound(other);
                            }
                        }
                        assert forall|other: Seq<char>| after.contains_key(other) implies after[other]
                            == wanted[other] by {
                            if letters_value(other) == letters_value(code@) {
                                lemma_letters_value_injective(other, code@);
                            }
                            lemma_room_code_bound(other);
                        }
                        assert(after =~= wanted);
                    }
                    None
                }
            },
            None => Some(handle),
        }
    }

    /// Enters `handle` under a fresh random code and hands back the code. A
    /// code that is taken is given up for another; after `tries` codes that
    /// were taken the directory stays as it is and the handle comes back. So
    /// the handle comes back only where no try was allowed or the directory
    /// holds a room already: with a try to make, an empty directory always
    /// takes the room.
    pub fn create_room(&mut self, handle: H, tries: usize) -> (res: Result<String, H>)
        ensures
            match res {
                Ok(code) => {
                    &&& is_room_code(code@)
                    &&& !old(self)@.contains_key(code@)
                    &&& final(self)@ == old(self)@.insert(code@, handle)
                },
                Err(back) => back == handle && final(self)@ == old(self)@,
            },
            tries == 0 ==> res is Err,
            res is Err ==> tries == 0 || exists|code: Seq<char>|
                is_room_code(code) && old(self)@.contains_key(code),
    {
        let mut held = handle;
        let mut left = tries;
        while left > 0
            invariant
                held == handle,
                self@ == old(self)@,
                left <= tries,
                left < tries ==> exists|code: Seq<char>|
                    is_room_code(code) && old(self)@.contains_key(code),
            decreases left,
        {
            let code = random_room_code();
            match self.claim(code.as_str(), held) {
                None => {
                    return Ok(code);
                },
                Some(back) => {
                    held = back;
                },
            }
            left = left - 1;
        }
        Err(held)
    }
}

/// What a connection that sits in no room yet is owed for a message.
#[derive(Debug, PartialEq, Eq)]
pub enum LobbyAction {
    /// Answer the ping and go on listening.
    Pong,
    /// Open a room and seat the player of this name in it.
    Create(String),
    /// Seat the player of the first name in the room of the second.
    Join(String, String),
    /// The message has no place here: go on listening.
    Unexpected,
}

/// What a lobby action says, its strings taken as texts.
pub enum LobbyActionView {
    Pong,
    Create(Seq<char>),
    Join(Seq<char>, Seq<char>),
    Unexpected,
}

impl View for LobbyAction {
    type V = LobbyActionView;

    open spec fn view(&self) -> LobbyActionView {
        match *self {
            LobbyAction::Pong => LobbyActionView::Pong,
            LobbyAction::Create(name) => LobbyActionView::Create(name@),
            LobbyAction::Join(name, room) => LobbyActionView::Join(name@, room@),
            LobbyAction::Unexpected => LobbyActionView::Unexpected,
        }
    }
}

/// What is owed for `msg` to a connection that sits in no room yet.
pub open spec fn lobby_rule(msg: ClientMessageView) -> LobbyActionView {
    match msg {
        ClientMessageView::Ping => LobbyActionView::Pong,
        ClientMessageView::CreateRoom(name) => LobbyActionView::Create(name),
        ClientMessageView::JoinRoom(name, room) => LobbyActionView::Join(
            name,
            room,
        ),
        _ => LobbyActionView::Unexpected,
    }
}

/// Decides what a connection that sits in no room yet is owed for `msg`.
pub fn lobby_action(msg: ClientMessage) -> (action: LobbyAction)
    ensures
        action@ == lobby_rule(msg@),
{
    match msg {
        ClientMessage::Ping => LobbyAction::Pong,
        ClientMessage::CreateRoom(name) => LobbyAction::Create(name),
        ClientMessage::JoinRoom(name, room) => LobbyAction::Join(name, room),
        _ => LobbyAction::Unexpected,
    }
}

} // verus!
