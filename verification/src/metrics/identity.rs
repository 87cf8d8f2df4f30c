//! Process identity: name and owning user, both captured in the kernel on `exec`
//! and `fork` into `COMM_MAP`. A one-time `/proc` snapshot seeds processes that
//! predate truetop; uids are mapped through `/etc/passwd`, read once.

use std::collections::HashMap;

use vstd::prelude::*;
use vstd::utf8::*;

use crate::common::{Identity, COMM_LEN};
use crate::text;

verus! {

broadcast use vstd::std_specs::hash::group_hash_axioms;

/// What a process is called where nothing is known of it.
pub const UNKNOWN: &'static str = "<unknown>";

/// Identity of a process that predates truetop, read once from `/proc`.
#[derive(Debug)]
pub struct Seeded {
    pub name: String,
    pub uid: u32,
}

// ── Names ────────────────────────────────────────────────────────────────────

/// The text `String::from_utf8_lossy` makes of bytes that may not be UTF-8.
pub uninterp spec fn lossy(bytes: Seq<u8>) -> Seq<char>;

/// `String::from_utf8_lossy` is a function of the bytes alone, and returns the
/// text they encode where they are valid UTF-8. What it puts in place of invalid
/// sequences is not spelled out here.
#[verifier::external_body]
fn lossy_text(bytes: &[u8]) -> (out: String)
    ensures
        out@ == lossy(bytes@),
        valid_utf8(bytes@) ==> out@ == decode_utf8(bytes@),
{
    String::from_utf8_lossy(bytes).into_owned()
}

/// The name a `comm` field holds: up to its first zero, without the white space
/// around it.
pub open spec fn decoded(comm: Seq<u8>) -> Seq<char> {
    text::trimmed(lossy(text::until_nul(comm)))
}

/// The name a `comm` field holds; where it is valid UTF-8, the text it encodes.
pub fn decode_comm(raw: [u8; COMM_LEN]) -> (out: String)
    ensures
        out@ == decoded(raw@),
        valid_utf8(text::until_nul(raw@)) ==> out@ == text::trimmed(
            decode_utf8(text::until_nul(raw@)),
        ),
{
    let mut bytes: Vec<u8> = Vec::new();
    let mut i: usize = 0;
    assert(raw@.skip(0) == raw@);
    assert(bytes@ + text::until_nul(raw@) == text::until_nul(raw@));
    while i < COMM_LEN && raw[i] != 0
        invariant
            i <= COMM_LEN,
            raw@.len() == COMM_LEN,
            bytes@ + text::until_nul(raw@.skip(i as int)) == text::until_nul(raw@),
        decreases COMM_LEN - i,
    {
        let ghost here = raw@.skip(i as int);
        let ghost was = bytes@;
        assert(here.drop_first() == raw@.skip(i + 1));
        bytes.push(raw[i]);
        assert(was + (seq![here[0]] + text::until_nul(here.drop_first())) == bytes@
            + text::until_nul(here.drop_first()));
        i += 1;
    }
    assert(bytes@ == text::until_nul(raw@)) by {
        assert(text::until_nul(raw@.skip(i as int)) == Seq::<u8>::empty());
        assert(bytes@ + Seq::<u8>::empty() == bytes@);
    }
    text::trim_text(lossy_text(bytes.as_slice()).as_str())
}

// ── Users ────────────────────────────────────────────────────────────────────

/// The uid a `/proc/<pid>/status` states: the first of the four `Uid:` fields.
pub open spec fn stated_uid(status: Seq<char>) -> Option<nat> {
    match text::first_with(text::lines(status), "Uid:"@) {
        Some(line) => match text::nth_word(line, 1) {
            Some(word) => text::parsed(word, u32::MAX as nat),
            None => None,
        },
        None => None,
    }
}

/// Real uid from `/proc/<pid>/status` (the first of the four `Uid:` fields).
/// Startup only: live processes carry their uid in `COMM_MAP`.
pub fn proc_uid(status: &str) -> (out: Option<u32>)
    ensures
        out is Some == stated_uid(status@) is Some,
        out matches Some(uid) ==> Some(uid as nat) == stated_uid(status@),
{
    let line = match text::line_with(status, "Uid:") {
        Some(line) => line,
        None => return None,
    };
    let word = match text::word_at(&line, 1) {
        Some(word) => word,
        None => return None,
    };
    match text::parse_number(&word, u32::MAX as u64) {
        Some(uid) => Some(uid as u32),
        None => None,
    }
}

/// The uid and the name a `passwd` line states, as `name:passwd:uid:...`.
pub open spec fn passwd_entry(line: Seq<char>) -> Option<(u32, Seq<char>)> {
    let fields = text::pieces(line, ':');
    if fields.len() > 2 {
        match text::parsed(fields[2], u32::MAX as nat) {
            Some(uid) => Some((uid as u32, fields[0])),
            None => None,
        }
    } else {
        None
    }
}

/// The names `lines` state for each uid; a later line overrides an earlier.
pub open spec fn passwd_names(lines: Seq<Seq<char>>) -> Map<u32, Seq<char>>
    decreases lines.len(),
{
    if lines.len() == 0 {
        Map::empty()
    } else {
        let before = passwd_names(lines.drop_last());
        match passwd_entry(lines.last()) {
            Some((uid, name)) => before.insert(uid, name),
            None => before,
        }
    }
}

/// The names of `users`.
pub open spec fn names(users: Map<u32, String>) -> Map<u32, Seq<char>> {
    users.map_values(|name: String| name@)
}

/// The user name of each uid, from the content of `/etc/passwd`; none where it
/// could not be read.
pub fn load_passwd(content: &Option<String>) -> (out: HashMap<u32, String>)
    ensures
        names(out@) == match content {
            Some(content) => passwd_names(text::lines(content@)),
            None => Map::empty(),
        },
{
    let mut out: HashMap<u32, String> = HashMap::new();
    assert(names(out@) =~= Map::empty());
    let content = match content {
        Some(content) => content,
        None => return out,
    };
    let lines = text::split_lines(&text::to_chars(content.as_str()));
    let ghost all = lines@.map_values(|w: Vec<char>| w@);
    assert(all.take(0) == Seq::<Seq<char>>::empty());
    for i in 0..lines.len()
        invariant
            all == lines@.map_values(|w: Vec<char>| w@),
            names(out@) == passwd_names(all.take(i as int)),
    {
        // name:passwd:uid:gid:...
        let fields = text::split(&lines[i], ':');
        let ghost seen = fields@.map_values(|w: Vec<char>| w@);
        assert(all.take(i + 1).drop_last() == all.take(i as int));
        assert(all.take(i + 1).last() == lines@[i as int]@);
        if fields.len() > 2 {
            assert(seen[2] == fields@[2]@ && seen[0] == fields@[0]@);
            if let Some(uid) = text::parse_number(&fields[2], u32::MAX as u64) {
                let ghost before = out@;
                let name = text::to_text(&fields[0]);
                out.insert(uid as u32, name);
                assert(names(out@) =~= names(before).insert(uid as u32, name@));
            }
        }
    }
    assert(all.take(lines.len() as int) == all);
    out
}

// ── The startup snapshot ─────────────────────────────────────────────────────

/// What `/proc` held of one of its entries at startup; a file that could not be
/// read is `None`.
#[derive(Debug)]
pub struct ProcEntry {
    pub file_name: String,
    pub comm: Option<String>,
    pub status: Option<String>,
}

/// The process an entry of `/proc` is named after.
pub open spec fn entry_pid(file_name: Seq<char>) -> Option<nat> {
    text::parsed(file_name, u32::MAX as nat)
}

/// The process an entry of `/proc` is named after; `None` for the entries that
/// are no process.
pub fn proc_entry_pid(file_name: &str) -> (out: Option<u32>)
    ensures
        out is Some == entry_pid(file_name@) is Some,
        out matches Some(pid) ==> Some(pid as nat) == entry_pid(file_name@),
{
    match text::parse_number(&text::to_chars(file_name), u32::MAX as u64) {
        Some(pid) => Some(pid as u32),
        None => None,
    }
}

/// The identity an entry of `/proc` states, if it is a process that states both.
pub open spec fn entry_identity(entry: ProcEntry) -> Option<(u32, (Seq<char>, u32))> {
    match (entry_pid(entry.file_name@), entry.comm, entry.status) {
        (Some(pid), Some(comm), Some(status)) => match stated_uid(status@) {
            Some(uid) => Some((pid as u32, (text::trimmed(comm@), uid as u32))),
            None => None,
        },
        _ => None,
    }
}

/// The identities `entries` state.
pub open spec fn identities(entries: Seq<ProcEntry>) -> Map<u32, (Seq<char>, u32)>
    decreases entries.len(),
{
    if entries.len() == 0 {
        Map::empty()
    } else {
        let before = identities(entries.drop_last());
        match entry_identity(entries.last()) {
            Some((pid, identity)) => before.insert(pid, identity),
            None => before,
        }
    }
}

/// The identities of `seed`.
pub open spec fn seeds(seed: Map<u32, Seeded>) -> Map<u32, (Seq<char>, u32)> {
    seed.map_values(|seeded: Seeded| (seeded.name@, seeded.uid))
}

/// Seed identity for processes that predate truetop and never fired a capturable
/// `exec`. The `status` read is the expensive one, and it happens once per
/// process here rather than once per row per tick.
pub fn backfill_proc_names(entries: &Vec<ProcEntry>) -> (out: HashMap<u32, Seeded>)
    ensures
        seeds(out@) == identities(entries@),
{
    let mut out: HashMap<u32, Seeded> = HashMap::new();
    assert(seeds(out@) =~= Map::empty());
    assert(entries@.take(0) == Seq::<ProcEntry>::empty());
    for i in 0..entries.len()
        invariant
            seeds(out@) == identities(entries@.take(i as int)),
    {
        let entry = &entries[i];
        assert(entries@.take(i + 1).drop_last() == entries@.take(i as int));
        assert(entries@.take(i + 1).last() == entry);
        let found = match (proc_entry_pid(entry.file_name.as_str()), &entry.comm, &entry.status) {
            (Some(pid), Some(comm), Some(status)) => match proc_uid(status.as_str()) {
                Some(uid) => Some((pid, Seeded { name: text::trim_text(comm.as_str()), uid })),
                None => None,
            },
            _ => None,
        };
        if let Some((pid, seeded)) = found {
            let ghost before = out@;
            out.insert(pid, seeded);
            assert(seeds(out@) =~= seeds(before).insert(pid, (seeded.name@, seeded.uid)));
        }
    }
    assert(entries@.take(entries.len() as int) == entries@);
    out
}

// ── The resolver ─────────────────────────────────────────────────────────────

#[derive(Debug)]
pub struct Resolver {
    seed: HashMap<u32, Seeded>,
    users: HashMap<u32, String>,
}

/// What a [`Resolver`] knows: the startup identities and the user names.
pub ghost struct Known {
    pub seed: Map<u32, (Seq<char>, u32)>,
    pub users: Map<u32, Seq<char>>,
}

impl View for Resolver {
    type V = Known;

    closed spec fn view(&self) -> Known {
        Known { seed: seeds(self.seed@), users: names(self.users@) }
    }
}

impl Known {
    /// The name of `tgid`: as captured live, else as seeded.
    pub open spec fn name(self, tgid: u32, live: Option<Identity>) -> Seq<char> {
        match live {
            Some(identity) => decoded(identity.comm@),
            None => if self.seed.contains_key(tgid) {
                self.seed[tgid].0
            } else {
                UNKNOWN@
            },
        }
    }

    /// The user name of `uid`, or the number where it has none.
    pub open spec fn user_name(self, uid: u32) -> Seq<char> {
        if self.users.contains_key(uid) {
            self.users[uid]
        } else {
            text::decimal(uid as nat)
        }
    }

    /// The owner of `tgid`: as captured live, else as seeded.
    pub open spec fn owner(self, tgid: u32, live: Option<Identity>) -> Option<Seq<char>> {
        match live {
            Some(identity) => Some(self.user_name(identity.uid)),
            None => if self.seed.contains_key(tgid) {
                Some(self.user_name(self.seed[tgid].1))
            } else {
                None
            },
        }
    }

    /// What is known once `tgid` is forgotten.
    pub open spec fn without(self, tgid: u32) -> Known {
        Known { seed: self.seed.remove(tgid), ..self }
    }
}

/// What is known from what `/proc` and `/etc/passwd` held.
pub open spec fn known_from(entries: Seq<ProcEntry>, passwd: Option<Seq<char>>) -> Known {
    Known {
        seed: identities(entries),
        users: match passwd {
            Some(content) => passwd_names(text::lines(content)),
            None => Map::empty(),
        },
    }
}

impl Resolver {
    /// A resolver over what `/proc` and `/etc/passwd` held at startup.
    pub fn new(entries: &Vec<ProcEntry>, passwd: &Option<String>) -> (out: Resolver)
        ensures
            out@.seed == identities(entries@),
            out@.users == match passwd {
                Some(content) => passwd_names(text::lines(content@)),
                None => Map::empty(),
            },
            out@ == known_from(entries@, text::content(*passwd)),
    {
        Resolver { seed: backfill_proc_names(entries), users: load_passwd(passwd) }
    }

    /// Live `COMM_MAP` wins; fall back to the startup `/proc` snapshot. `live` is
    /// what the map holds of `tgid`.
    pub fn resolve(&self, tgid: u32, live: &Option<Identity>) -> (out: String)
        ensures
            out@ == self@.name(tgid, *live),
    {
        if let Some(identity) = live {
            return decode_comm(identity.comm);
        }
        match self.seed.get(&tgid) {
            Some(seeded) => seeded.name.clone(),
            None => UNKNOWN.to_owned(),
        }
    }

    /// Drop a departed process's name once user space has finished with it.
    pub fn forget(&mut self, tgid: u32)
        ensures
            final(self)@ == (Known { seed: old(self)@.seed.remove(tgid), ..old(self)@ }),
            final(self)@ == old(self)@.without(tgid),
    {
        let ghost before = self.seed@;
        self.seed.remove(&tgid);
        assert(seeds(self.seed@) =~= seeds(before).remove(tgid));
    }

    /// Owning user, or the numeric uid when it maps to no passwd entry. `None`
    /// for a process we have neither captured nor seeded.
    pub fn user(&self, tgid: u32, live: &Option<Identity>) -> (out: Option<String>)
        ensures
            text::content(out) == self@.owner(tgid, *live),
    {
        let uid = match live {
            Some(identity) => identity.uid,
            None => match self.seed.get(&tgid) {
                Some(seeded) => seeded.uid,
                None => return None,
            },
        };
        Some(
            match self.users.get(&uid) {
                Some(name) => name.clone(),
                None => text::to_decimal(uid as u128),
            },
        )
    }
}

// ── Laws ─────────────────────────────────────────────────────────────────────

/// Only what stands before the first zero of a `comm` field is its name.
pub proof fn what_follows_the_zero_is_no_name(name: Seq<u8>, junk: Seq<u8>)
    requires
        forall|i: int| 0 <= i < name.len() ==> #[trigger] name[i] != 0,
    ensures
        decoded(name + (seq![0u8] + junk)) == decoded(name),
{
    text::a_zero_ends_a_name(name, seq![0u8] + junk);
    text::a_zero_ends_a_name(name, Seq::empty());
    assert(name + Seq::<u8>::empty() =~= name);
}

/// The uid of a process is the first number of its `Uid:` row, which is the real one,
/// in whatever line the row stands; without the row there is none.
pub proof fn the_real_uid_reads_back(
    front: Seq<char>,
    gap: Seq<char>,
    uid: u32,
    tail: Seq<char>,
    rest: Seq<char>,
)
    requires
        front.len() > 0 ==> front.last() == '\n',
        forall|i: int|
            0 <= i < text::lines(front).len() ==> !text::begins(
                #[trigger] text::lines(front)[i],
                "Uid:"@,
            ),
        text::is_gap(gap),
        gap.len() > 0,
        text::lacks(gap, '\n'),
        tail.len() > 0 ==> text::is_space(tail[0]) && tail.last() != '\r',
        text::lacks(tail, '\n'),
    ensures
        stated_uid(
            front + ("Uid:"@ + gap + text::decimal(uid as nat) + tail + seq!['\n'] + rest),
        ) == Some(uid as nat),
        stated_uid(front) is None,
{
    reveal_strlit("Uid:");
    text::a_number_is_a_word(uid as nat);
    text::decimal_reads_back(uid as nat, u32::MAX as nat);
    text::a_row_is_found(front, "Uid:"@, gap, text::decimal(uid as nat), tail, rest);
    text::a_missing_row_is_not_found(front, "Uid:"@);
}

/// A line of `/etc/passwd` gives its third field the name in its first, whatever the
/// others hold.
pub proof fn a_passwd_line_reads_back(
    name: Seq<char>,
    password: Seq<char>,
    uid: u32,
    rest: Seq<char>,
)
    requires
        text::lacks(name, ':'),
        text::lacks(password, ':'),
    ensures
        passwd_entry(
            name + seq![':'] + (password + seq![':'] + (text::decimal(uid as nat) + seq![':']
                + rest)),
        ) == Some((uid, name)),
        passwd_entry(name + seq![':'] + password) is None,
{
    let number = text::decimal(uid as nat);
    text::decimal_is_shortest(uid as nat);
    text::decimal_reads_back(uid as nat, u32::MAX as nat);
    assert forall|i: int| 0 <= i < number.len() implies #[trigger] number[i] != ':' by {
        assert('0' <= number[i] <= '9');
    }
    let (second, third) = (password + seq![':'] + (number + seq![':'] + rest), number + seq![':']
        + rest);
    text::a_piece_comes_off(name, ':', second);
    text::a_piece_comes_off(password, ':', third);
    text::a_piece_comes_off(number, ':', rest);
    text::a_piece_comes_off(name, ':', password);
    let fields = text::pieces(name + seq![':'] + second, ':');
    assert(fields == seq![name] + (seq![password] + (seq![number] + text::pieces(rest, ':'))));
    assert(fields[2] == number);
}

/// Each line adds the name it states and overrides what an earlier one stated for that
/// uid; every other uid keeps its name, and a line that states none changes nothing.
pub proof fn a_later_line_overrides(lines: Seq<Seq<char>>, line: Seq<char>, other: u32)
    ensures
        passwd_names(Seq::empty()) == Map::<u32, Seq<char>>::empty(),
        ({
            let (before, after) = (passwd_names(lines), passwd_names(lines.push(line)));
            match passwd_entry(line) {
                Some((uid, name)) => {
                    &&& after.contains_key(uid) && after[uid] == name
                    &&& other != uid ==> after.contains_key(other) == before.contains_key(other)
                        && after[other] == before[other]
                },
                None => after == before,
            }
        }),
{
    assert(lines.push(line).drop_last() =~= lines);
}

/// Each entry of `/proc` that is a process and states its name and owner is seeded with
/// them; any other entry seeds nothing.
pub proof fn a_process_entry_is_seeded(
    entries: Seq<ProcEntry>,
    entry: ProcEntry,
    pid: u32,
    other: u32,
)
    ensures
        identities(Seq::empty()) == Map::<u32, (Seq<char>, u32)>::empty(),
        ({
            let (before, after) = (identities(entries), identities(entries.push(entry)));
            &&& entry.file_name@ == text::decimal(pid as nat) && entry.comm is Some
                && entry.status is Some && stated_uid(entry.status->0@) is Some ==> {
                &&& after.contains_key(pid)
                &&& after[pid].0 == text::trimmed(entry.comm->0@)
                &&& Some(after[pid].1 as nat) == stated_uid(entry.status->0@)
                &&& other != pid ==> after.contains_key(other) == before.contains_key(other)
                    && after[other] == before[other]
            }
            &&& entry.comm is None || entry.status is None || text::parsed(
                entry.file_name@,
                u32::MAX as nat,
            ) is None ==> after == before
            &&& entry.status is Some && stated_uid(entry.status->0@) is None ==> after == before
        }),
{
    assert(entries.push(entry).drop_last() =~= entries);
    text::decimal_reads_back(pid as nat, u32::MAX as nat);
}

/// What the kernel captured wins over what was seeded, for the name as for the owner;
/// a process that neither knows has no owner and is called unknown.
pub proof fn the_live_identity_wins(known: Known, tgid: u32, live: Identity)
    ensures
        known.name(tgid, Some(live)) == decoded(live.comm@),
        known.owner(tgid, Some(live)) == Some(known.user_name(live.uid)),
        known.seed.contains_key(tgid) ==> known.name(tgid, None) == known.seed[tgid].0
            && known.owner(tgid, None) == Some(known.user_name(known.seed[tgid].1)),
        !known.seed.contains_key(tgid) ==> known.name(tgid, None) == "<unknown>"@ && known.owner(
            tgid,
            None,
        ) is None,
{
}

/// A user is called by name, or by number where there is no name.
pub proof fn a_user_without_a_name_is_a_number(known: Known, uid: u32)
    ensures
        known.users.contains_key(uid) ==> known.user_name(uid) == known.users[uid],
        !known.users.contains_key(uid) ==> text::parsed(known.user_name(uid), u32::MAX as nat)
            == Some(uid as nat),
{
    text::decimal_reads_back(uid as nat, u32::MAX as nat);
}

/// Who is forgotten is unknown from then on, and nobody else is.
pub proof fn only_the_forgotten_are_unknown(known: Known, tgid: u32, other: u32)
    ensures
        known.without(tgid).name(tgid, None) == "<unknown>"@,
        known.without(tgid).owner(tgid, None) is None,
        other != tgid ==> known.without(tgid).name(other, None) == known.name(other, None)
            && known.without(tgid).owner(other, None) == known.owner(other, None),
{
}

/// A name is what the bytes before the zero say, without white space around it.
pub proof fn a_name_has_no_space_around_it(name: Seq<u8>, junk: Seq<u8>)
    requires
        forall|i: int| 0 <= i < name.len() ==> #[trigger] name[i] != 0,
    ensures
        decoded(name + (seq![0u8] + junk)) == text::trimmed(lossy(name)),
        decoded(name) == text::trimmed(lossy(name)),
{
    text::a_zero_ends_a_name(name, seq![0u8] + junk);
    text::a_zero_ends_a_name(name, Seq::empty());
    assert(name + Seq::<u8>::empty() =~= name);
}

/// A process that `/proc` stated at startup goes by what it stated, and its owner by the
/// name that the last line for it in `/etc/passwd` gives; without that file, by number.
pub proof fn a_seeded_process_goes_by_what_was_stated(
    entries: Seq<ProcEntry>,
    passwd: Seq<char>,
    tgid: u32,
    uid: u32,
)
    ensures
        identities(entries).contains_key(tgid) ==> known_from(entries, Some(passwd)).name(
            tgid,
            None,
        ) == identities(entries)[tgid].0,
        passwd_names(text::lines(passwd)).contains_key(uid) ==> known_from(
            entries,
            Some(passwd),
        ).user_name(uid) == passwd_names(text::lines(passwd))[uid],
        text::parsed(known_from(entries, None).user_name(uid), u32::MAX as nat) == Some(uid as nat),
{
    text::decimal_reads_back(uid as nat, u32::MAX as nat);
}

/// A line may end with its uid.
pub proof fn a_passwd_line_may_end_with_its_uid(name: Seq<char>, password: Seq<char>, uid: u32)
    requires
        text::lacks(name, ':'),
        text::lacks(password, ':'),
    ensures
        passwd_entry(name + seq![':'] + (password + seq![':'] + text::decimal(uid as nat))) == Some(
            (uid, name),
        ),
{
    let number = text::decimal(uid as nat);
    text::decimal_is_shortest(uid as nat);
    text::decimal_reads_back(uid as nat, u32::MAX as nat);
    assert forall|i: int| 0 <= i < number.len() implies #[trigger] number[i] != ':' by {
        assert('0' <= number[i] <= '9');
    }
    let second = password + seq![':'] + number;
    text::a_piece_comes_off(name, ':', second);
    text::a_piece_comes_off(password, ':', number);
    text::a_piece_comes_off(number, ':', Seq::empty());
    let fields = text::pieces(name + seq![':'] + second, ':');
    assert(fields == seq![name] + (seq![password] + seq![number]));
    assert(fields[2] == number);
}

} // verus!
