//! Peers seen on the local network: what an announcement says, and the
//! table of peers that announcements and withdrawals keep up to date.
//!
//! Listening to the network is left to the caller, which hands each
//! resolved announcement and each withdrawal to the table.
use vstd::prelude::*;

use crate::profiles::{parse_uuid_text, uuid_of_text, uuid_string, uuid_text};
use crate::text::{chars_contain, chars_of, contains};

verus! {

/// Whether `c` is an ASCII decimal digit.
pub open spec fn is_digit(c: char) -> bool {
    0x30 <= (c as u32) && (c as u32) <= 0x39
}

/// The number that the decimal digits `s` spell.
pub open spec fn digits_value(s: Seq<char>) -> int
    decreases s.len(),
{
    if s.len() == 0 {
        0
    } else {
        digits_value(s.drop_last()) * 10 + ((s.last() as u32) - 0x30)
    }
}

/// `s` without one leading `+`.
pub open spec fn unsigned_part(s: Seq<char>) -> Seq<char> {
    if s.len() > 0 && s[0] == '+' {
        s.drop_first()
    } else {
        s
    }
}

/// The `u32` that `s` spells as `str::parse` reads it: an optional `+`,
/// then one or more decimal digits, for a value that fits.
pub open spec fn u32_of_text(s: Seq<char>) -> Option<u32> {
    let d = unsigned_part(s);
    if d.len() > 0 && (forall|i: int| 0 <= i < d.len() ==> is_digit(#[trigger] d[i])) && digits_value(d)
        <= u32::MAX {
        Some(digits_value(d) as u32)
    } else {
        None
    }
}

proof fn lemma_digits_value_grows(s: Seq<char>, k: int)
    requires
        0 <= k <= s.len(),
        forall|i: int| 0 <= i < s.len() ==> is_digit(#[trigger] s[i]),
    ensures
        0 <= digits_value(s.take(k)) <= digits_value(s),
    decreases s.len(),
{
    if s.len() > 0 {
        let t = s.drop_last();
        assert forall|i: int| 0 <= i < t.len() implies is_digit(#[trigger] t[i]) by {
            assert(t[i] == s[i]);
        }
        if k < s.len() {
            lemma_digits_value_grows(t, k);
            assert(t.take(k) =~= s.take(k));
        } else {
            lemma_digits_value_grows(t, 0);
            assert(s.take(k) =~= s);
        }
        lemma_digits_value_grows(t, t.len() as int);
        assert(t.take(t.len() as int) =~= t);
    } else {
        assert(s.take(k) =~= s);
    }
}

/// Reads a `u32` written in decimal, as `str::parse` does.
pub fn parse_u32(s: &str) -> (r: Option<u32>)
    ensures
        r == u32_of_text(s@),
{
    let c = chars_of(s);
    let start: usize = if c.len() > 0 && c[0] == '+' {
        1
    } else {
        0
    };
    let ghost d = unsigned_part(s@);
    assert(d =~= c@.subrange(start as int, c@.len() as int));
    if start >= c.len() {
        return None;
    }
    let mut v: u64 = 0;
    let mut i: usize = start;
    while i < c.len()
        invariant
            start <= i <= c@.len(),
            c@ == s@,
            d == unsigned_part(s@),
            d == c@.subrange(start as int, c@.len() as int),
            forall|j: int| 0 <= j < i - start ==> is_digit(#[trigger] d[j]),
            v == digits_value(d.take(i - start)),
            v <= u32::MAX,
        decreases c@.len() - i,
    {
        let ch = c[i];
        assert(d[i - start] == ch);
        let code: u32 = ch as u32;
        if code < 0x30 || code > 0x39 {
            assert(!is_digit(d[i - start]));
            return None;
        }
        let digit: u64 = (code - 0x30) as u64;
        assert(d.take(i - start + 1).drop_last() =~= d.take(i - start));
        assert(d.take(i - start + 1).last() == ch);
        v = v * 10 + digit;
        if v > 0xFFFF_FFFF {
            proof {
                if forall|j: int| 0 <= j < d.len() ==> is_digit(#[trigger] d[j]) {
                    lemma_digits_value_grows(d, i - start + 1);
                }
            }
            return None;
        }
        i = i + 1;
    }
    assert(d.take(i - start) =~= d);
    Some(v as u32)
}

/// What a peer announces of itself.
#[derive(Debug)]
pub struct Announcement {
    pub id: u128,
    pub name: String,
    pub protocol_version: u32,
    pub fingerprint_short: String,
}

/// The text of a property, or a default when it is missing.
pub open spec fn text_or(v: Option<&str>, default: Seq<char>) -> Seq<char> {
    match v {
        Some(s) => s@,
        None => default,
    }
}

/// Reads an announcement from its properties `id`, `name`, `ver` and `fp`:
/// there is one when `id` is present and names a UUID; a missing name reads
/// as `Unknown`, a missing or unreadable version as 1, a missing
/// fingerprint as empty.
pub fn read_announcement(id: Option<&str>, name: Option<&str>, ver: Option<&str>, fp: Option<&str>) -> (r: Option<
    Announcement,
>)
    ensures
        r is Some <==> (id matches Some(t) && uuid_of_text(t@) is Some),
        r matches Some(a) ==> {
            &&& uuid_of_text(id->0@) == Some(a.id)
            &&& a.name@ == text_or(name, "Unknown"@)
            &&& a.protocol_version == match ver {
                Some(v) => match u32_of_text(v@) {
                    Some(n) => n,
                    None => 1,
                },
                None => 1,
            }
            &&& a.fingerprint_short@ == text_or(fp, Seq::empty())
        },
{
    let id_text = match id {
        Some(t) => t,
        None => return None,
    };
    let peer_id = match parse_uuid_text(id_text) {
        Ok(u) => u,
        Err(_) => return None,
    };
    let name = match name {
        Some(n) => n.to_owned(),
        None => "Unknown".to_owned(),
    };
    let protocol_version = match ver {
        Some(v) => match parse_u32(v) {
            Some(n) => n,
            None => 1,
        },
        None => 1,
    };
    let fingerprint_short = match fp {
        Some(f) => f.to_owned(),
        None => String::new(),
    };
    Some(Announcement { id: peer_id, name, protocol_version, fingerprint_short })
}

/// What an announcement changed in the table.
#[derive(Debug, Clone, Copy, PartialEq, Eq, Structural)]
pub enum PeerChange {
    /// The announcement came from this instance itself.
    Ignored,
    /// A peer not seen before.
    Discovered,
    /// A peer already known, with what it now announces.
    Updated,
}

/// The index of the first peer in `s` whose id is written in `name`, or -1.
pub open spec fn first_named<P>(s: Seq<(u128, P)>, name: Seq<char>) -> int
    decreases s.len(),
{
    if s.len() == 0 {
        -1
    } else if first_named(s.drop_last(), name) >= 0 {
        first_named(s.drop_last(), name)
    } else if contains(name, uuid_text(s.last().0)) {
        s.len() - 1
    } else {
        -1
    }
}

/// The peers seen on the network, each once, keyed by id, never this
/// instance itself.
#[derive(Debug)]
pub struct PeerTable<P> {
    own_id: u128,
    peers: Vec<(u128, P)>,
}

impl<P> PeerTable<P> {
    /// The ids are distinct and none is this instance's.
    pub open spec fn well_formed(own_id: u128, s: Seq<(u128, P)>) -> bool {
        &&& forall|i: int| 0 <= i < s.len() ==> (#[trigger] s[i]).0 != own_id
        &&& forall|i: int, j: int| 0 <= i < j < s.len() ==> (#[trigger] s[i]).0 != (#[trigger] s[j]).0
    }

    #[verifier::type_invariant]
    spec fn inv(self) -> bool {
        Self::well_formed(self.own_id, self.peers@)
    }

    /// This instance's id.
    pub closed spec fn own(self) -> u128 {
        self.own_id
    }

    /// The peers, in the order first seen.
    pub closed spec fn peers_view(self) -> Seq<(u128, P)> {
        self.peers@
    }

    /// An empty table for the instance `own_id`.
    pub fn new(own_id: u128) -> (t: Self)
        ensures
            t.own() == own_id,
            t.peers_view() == Seq::<(u128, P)>::empty(),
    {
        PeerTable { own_id, peers: Vec::new() }
    }

    /// The peers, in the order first seen: each once, none this instance.
    pub fn peers(&self) -> (r: &Vec<(u128, P)>)
        ensures
            r@ == self.peers_view(),
            Self::well_formed(self.own(), r@),
    {
        proof {
            use_type_invariant(self);
        }
        &self.peers
    }

    fn find(&self, id: u128) -> (r: Option<usize>)
        ensures
            match r {
                Some(i) => i < self.peers@.len() && self.peers@[i as int].0 == id,
                None => forall|j: int| 0 <= j < self.peers@.len() ==> self.peers@[j].0 != id,
            },
    {
        let mut i: usize = 0;
        while i < self.peers.len()
            invariant
                i <= self.peers@.len(),
                forall|j: int| 0 <= j < i ==> self.peers@[j].0 != id,
            decreases self.peers@.len() - i,
        {
            if self.peers[i].0 == id {
                return Some(i);
            }
            i = i + 1;
        }
        None
    }

    /// Files what the peer `id` announced. An announcement of this instance
    /// itself is ignored; a known peer's entry is replaced in place; a new
    /// peer is added at the end.
    pub fn announce(&mut self, id: u128, peer: P) -> (c: PeerChange)
        ensures
            final(self).own() == old(self).own(),
            id == old(self).own() ==> c == PeerChange::Ignored && final(self).peers_view() == old(
                self,
            ).peers_view(),
            id != old(self).own() && (exists|i: int|
                0 <= i < old(self).peers_view().len() && (#[trigger] old(self).peers_view()[i]).0 == id) ==> {
                let i = choose|i: int|
                    0 <= i < old(self).peers_view().len() && (#[trigger] old(self).peers_view()[i]).0 == id;
                &&& c == PeerChange::Updated
                &&& final(self).peers_view() == old(self).peers_view().update(i, (id, peer))
            },
            id != old(self).own() && (forall|i: int|
                0 <= i < old(self).peers_view().len() ==> (#[trigger] old(self).peers_view()[i]).0 != id) ==> {
                &&& c == PeerChange::Discovered
                &&& final(self).peers_view() == old(self).peers_view().push((id, peer))
            },
    {
        proof {
            use_type_invariant(&*self);
        }
        if id == self.own_id {
            return PeerChange::Ignored;
        }
        match self.find(id) {
            Some(i) => {
                let ghost before = self.peers@;
                assert(old(self).peers_view()[i as int].0 == id);
                proof {
                    let k = choose|k: int| 0 <= k < before.len() && (#[trigger] before[k]).0 == id;
                    if k != i {
                        if k < i {
                            assert(before[k].0 != before[i as int].0);
                        } else {
                            assert(before[i as int].0 != before[k].0);
                        }
                    }
                }
                let mut peers: Vec<(u128, P)> = Vec::new();
                std::mem::swap(&mut peers, &mut self.peers);
                peers.set(i, (id, peer));
                proof {
                    assert forall|a: int, b: int| 0 <= a < b < peers@.len() implies (#[trigger] peers@[a]).0
                        != (#[trigger] peers@[b]).0 by {
                        assert(peers@[a].0 == before[a].0);
                        assert(peers@[b].0 == before[b].0);
                    }
                    assert forall|a: int| 0 <= a < peers@.len() implies (#[trigger] peers@[a]).0 != self.own_id by {
                        assert(peers@[a].0 == before[a].0);
                    }
                }
                self.peers = peers;
                PeerChange::Updated
            },
            None => {
                let mut peers: Vec<(u128, P)> = Vec::new();
                std::mem::swap(&mut peers, &mut self.peers);
                peers.push((id, peer));
                self.peers = peers;
                PeerChange::Discovered
            },
        }
    }

    /// Drops the peer whose announcement `service_name` withdraws: the
    /// first, in the order first seen, whose id is written in the name.
    /// Returns its id, or `None` when no peer's id is written there.
    pub fn withdraw(&mut self, service_name: &str) -> (r: Option<u128>)
        ensures
            final(self).own() == old(self).own(),
            first_named(old(self).peers_view(), service_name@) < 0 ==> r is None && final(self).peers_view()
                == old(self).peers_view(),
            first_named(old(self).peers_view(), service_name@) >= 0 ==> {
                let i = first_named(old(self).peers_view(), service_name@);
                &&& r == Some(old(self).peers_view()[i].0)
                &&& final(self).peers_view() == old(self).peers_view().remove(i)
            },
    {
        proof {
            use_type_invariant(&*self);
        }
        let name = chars_of(service_name);
        let mut i: usize = 0;
        while i < self.peers.len()
            invariant
                i <= self.peers@.len(),
                name@ == service_name@,
                self.peers@ == old(self).peers@,
                self.own_id == old(self).own_id,
                Self::well_formed(self.own_id, self.peers@),
                first_named(self.peers@.take(i as int), service_name@) < 0,
            decreases self.peers@.len() - i,
        {
            let text = chars_of(uuid_string(self.peers[i].0).as_str());
            let hit = chars_contain(&name, &text);
            assert(self.peers@.take(i + 1).drop_last() =~= self.peers@.take(i as int));
            if hit {
                proof {
                    lemma_first_named_prefix(self.peers@, service_name@, i + 1);
                }
                let ghost before = self.peers@;
                let mut peers: Vec<(u128, P)> = Vec::new();
                std::mem::swap(&mut peers, &mut self.peers);
                let (id, _peer) = peers.remove(i);
                proof {
                    assert forall|a: int, b: int| 0 <= a < b < peers@.len() implies (#[trigger] peers@[a]).0
                        != (#[trigger] peers@[b]).0 by {
                        let aa = if a < i { a } else { a + 1 };
                        let bb = if b < i { b } else { b + 1 };
                        assert(peers@[a] == before[aa]);
                        assert(peers@[b] == before[bb]);
                    }
                    assert forall|a: int| 0 <= a < peers@.len() implies (#[trigger] peers@[a]).0 != self.own_id by {
                        let aa = if a < i { a } else { a + 1 };
                        assert(peers@[a] == before[aa]);
                    }
                }
                self.peers = peers;
                return Some(id);
            }
            i = i + 1;
        }
        assert(self.peers@.take(i as int) =~= self.peers@);
        None
    }
}

/// Once a prefix of `s` names a peer, the first peer named in `s` is the
/// first named in that prefix.
proof fn lemma_first_named_prefix<P>(s: Seq<(u128, P)>, name: Seq<char>, n: int)
    requires
        0 <= n <= s.len(),
        first_named(s.take(n), name) >= 0,
    ensures
        first_named(s, name) == first_named(s.take(n), name),
    decreases s.len() - n,
{
    if n < s.len() {
        assert(s.take(n + 1).drop_last() =~= s.take(n));
        lemma_first_named_prefix(s, name, n + 1);
    } else {
        assert(s.take(n) =~= s);
    }
}

} // verus!
