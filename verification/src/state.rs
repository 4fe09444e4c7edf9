//! The storage engine: an append-only command log and its index.
//!
//! The log is the sole source of truth.  It is a byte sequence holding
//! the encodings of records, one after the other from byte 0.  The
//! index is a derived cache mapping each key to the byte offset of its
//! most recently appended record; it is rebuilt by one sequential scan
//! when the store is opened and kept current by every later mutation.

use vstd::prelude::*;

use crate::codec::cmd_wf;
use crate::codec::lemma_parse_command_extend;
use crate::codec::lemma_parse_encode_command;
use crate::codec::parse_command_at;
use crate::codec::spec_encode_command;
use crate::codec::spec_parse_command;
use crate::codec::encode_command;
use crate::errors::KvsError;
use crate::Action;
use crate::Command;
use crate::CommandView;

verus! {

/// The records parsed out of `s` from position `pos` to the end, each
/// paired with the offset of its first byte, or `None` when the bytes
/// from `pos` on are not a whole number of valid records.
pub open spec fn spec_parse_log_from(s: Seq<u8>, pos: int) -> Option<Seq<(int, CommandView)>>
    decreases s.len() - pos,
    when 0 <= pos <= s.len()
{
    if pos == s.len() {
        Some(Seq::empty())
    } else {
        match spec_parse_command(s.subrange(pos, s.len() as int)) {
            None => None,
            Some((c, n)) => {
                if n < 1 || pos + n > s.len() {
                    None
                } else {
                    match spec_parse_log_from(s, pos + n) {
                        None => None,
                        Some(rest) => Some(seq![(pos, c)] + rest),
                    }
                }
            },
        }
    }
}

/// The whole log parsed from byte 0.
pub open spec fn spec_parse_log(s: Seq<u8>) -> Option<Seq<(int, CommandView)>> {
    spec_parse_log_from(s, 0)
}

/// The index derived from a record sequence: each key maps to the
/// offset of its last record, whatever that record's action.
pub open spec fn spec_index_of(rs: Seq<(int, CommandView)>) -> Map<Seq<char>, int>
    decreases rs.len(),
{
    if rs.len() == 0 {
        Map::empty()
    } else {
        spec_index_of(rs.drop_last()).insert(rs.last().1.key, rs.last().0)
    }
}

/// The value currently held under `k`: the last record for `k`
/// decides, and only a `Put` record holds a live value.
pub open spec fn spec_current(rs: Seq<(int, CommandView)>, k: Seq<char>) -> Option<Seq<char>>
    decreases rs.len(),
{
    if rs.len() == 0 {
        None
    } else if rs.last().1.key == k {
        if rs.last().1.action is Put {
            Some(rs.last().1.value)
        } else {
            None
        }
    } else {
        spec_current(rs.drop_last(), k)
    }
}

/// A key absent from the index holds no value.
pub proof fn lemma_absent_key(rs: Seq<(int, CommandView)>, k: Seq<char>)
    requires
        !spec_index_of(rs).contains_key(k),
    ensures
        spec_current(rs, k) is None,
    decreases rs.len(),
{
    if rs.len() > 0 {
        lemma_absent_key(rs.drop_last(), k);
    }
}

/// How the index and the current value of a record sequence relate to
/// those of the sequence with its first record peeled off.
proof fn lemma_index_of_cons(r0: (int, CommandView), rest: Seq<(int, CommandView)>, k: Seq<char>)
    ensures
        spec_index_of(seq![r0] + rest).contains_key(k) <==> (spec_index_of(rest).contains_key(k)
            || r0.1.key == k),
        spec_index_of(rest).contains_key(k) ==> spec_index_of(seq![r0] + rest)[k]
            == spec_index_of(rest)[k] && spec_current(seq![r0] + rest, k) == spec_current(rest, k),
        !spec_index_of(rest).contains_key(k) && r0.1.key == k ==> spec_index_of(seq![r0] + rest)[k]
            == r0.0 && spec_current(seq![r0] + rest, k) == (if r0.1.action is Put {
            Some(r0.1.value)
        } else {
            None
        }),
    decreases rest.len(),
{
    let rs = seq![r0] + rest;
    if rest.len() == 0 {
        assert(rs =~= seq![r0]);
        assert(rs.drop_last() =~= Seq::<(int, CommandView)>::empty());
        assert(rs.last() == r0);
        assert(spec_index_of(rs) == Map::<Seq<char>, int>::empty().insert(r0.1.key, r0.0)) by {
            reveal_with_fuel(spec_index_of, 2);
        }
        assert(rs.last().1.key != k ==> spec_current(rs, k) is None) by {
            reveal_with_fuel(spec_current, 2);
        }
        lemma_absent_key(rest, k);
    } else {
        let rl = rest.last();
        assert(rs.last() == rl);
        assert(rs.drop_last() =~= seq![r0] + rest.drop_last());
        lemma_index_of_cons(r0, rest.drop_last(), k);
        assert(spec_index_of(rs) == spec_index_of(seq![r0] + rest.drop_last()).insert(
            rl.1.key,
            rl.0,
        ));
        assert(spec_index_of(rest) == spec_index_of(rest.drop_last()).insert(rl.1.key, rl.0));
        if rl.1.key == k {
            assert(spec_index_of(rs)[k] == rl.0);
            assert(spec_index_of(rest)[k] == rl.0);
            assert(spec_current(rs, k) == spec_current(rest, k));
        } else {
            assert(spec_index_of(rs).contains_key(k) <==> spec_index_of(
                seq![r0] + rest.drop_last(),
            ).contains_key(k));
            assert(spec_index_of(rest).contains_key(k) <==> spec_index_of(
                rest.drop_last(),
            ).contains_key(k));
            assert(spec_current(rs, k) == spec_current(seq![r0] + rest.drop_last(), k));
            assert(spec_current(rest, k) == spec_current(rest.drop_last(), k));
        }
    }
}

/// Where the index of a parsed log points for a key it holds: at a
/// parseable record whose key is `k` and whose action and value decide
/// the key's current value.
pub proof fn lemma_log_index(s: Seq<u8>, pos: int, rs: Seq<(int, CommandView)>, k: Seq<char>)
    requires
        0 <= pos <= s.len(),
        spec_parse_log_from(s, pos) == Some(rs),
        spec_index_of(rs).contains_key(k),
    ensures
        ({
            let off = spec_index_of(rs)[k];
            &&& pos <= off < s.len()
            &&& spec_parse_command(s.subrange(off, s.len() as int)) matches Some((c, n)) && c.key
                == k && spec_current(rs, k) == (if c.action is Put {
                Some(c.value)
            } else {
                None
            })
        }),
    decreases rs.len(),
{
    let c0n = spec_parse_command(s.subrange(pos, s.len() as int));
    let c0 = c0n->Some_0.0;
    let n = c0n->Some_0.1;
    let rest = spec_parse_log_from(s, pos + n)->Some_0;
    assert(rs == seq![(pos, c0)] + rest);
    lemma_index_of_cons((pos, c0), rest, k);
    if spec_index_of(rest).contains_key(k) {
        lemma_log_index(s, pos + n, rest, k);
    } else {
        assert(c0.key == k);
        assert(spec_index_of(rs)[k] == pos);
    }
}

/// Appending the encoding of one well-formed record to a log that
/// parses extends its record sequence by exactly that record, placed
/// at the old end of the log.
#[verifier::rlimit(60)]
pub proof fn lemma_parse_log_append(
    s: Seq<u8>,
    pos: int,
    rs: Seq<(int, CommandView)>,
    c: CommandView,
)
    requires
        0 <= pos <= s.len(),
        spec_parse_log_from(s, pos) == Some(rs),
        cmd_wf(c),
    ensures
        spec_parse_log_from(s + spec_encode_command(c), pos) == Some(
            rs + seq![(s.len() as int, c)],
        ),
    decreases rs.len(),
{
    let enc = spec_encode_command(c);
    let t = s + enc;
    lemma_parse_encode_command(c, Seq::empty());
    assert(enc + Seq::<u8>::empty() =~= enc);
    if pos == s.len() {
        assert(t.subrange(pos, t.len() as int) =~= enc);
        assert(spec_parse_log_from(t, pos + enc.len()) == Some(Seq::<(int, CommandView)>::empty()));
        assert(rs + seq![(s.len() as int, c)] =~= seq![(pos, c)] + Seq::<(
            int,
            CommandView,
        )>::empty());
    } else {
        let c0n = spec_parse_command(s.subrange(pos, s.len() as int));
        let c0 = c0n->Some_0.0;
        let n = c0n->Some_0.1;
        let rest = spec_parse_log_from(s, pos + n)->Some_0;
        assert(rs == seq![(pos, c0)] + rest);
        lemma_parse_command_extend(s.subrange(pos, s.len() as int), enc);
        assert(s.subrange(pos, s.len() as int) + enc =~= t.subrange(pos, t.len() as int));
        lemma_parse_log_append(s, pos + n, rest, c);
        assert(rs + seq![(s.len() as int, c)] =~= seq![(pos, c0)] + (rest + seq![
            (s.len() as int, c),
        ]));
    }
}

/// The mapping held by the index's entry list: each listed key maps
/// to its offset, with a later entry overriding an earlier one.
pub open spec fn spec_assoc_map(v: Seq<(String, u64)>) -> Map<Seq<char>, int>
    decreases v.len(),
{
    if v.len() == 0 {
        Map::empty()
    } else {
        spec_assoc_map(v.drop_last()).insert(v.last().0@, v.last().1 as int)
    }
}

/// Whether no two entries of the list name the same key.
pub open spec fn assoc_unique(v: Seq<(String, u64)>) -> bool {
    forall|i: int, j: int| 0 <= i < j < v.len() ==> v[i].0@ != v[j].0@
}

/// A key is in the mapping exactly when some entry names it.
proof fn lemma_assoc_contains(v: Seq<(String, u64)>, k: Seq<char>)
    ensures
        spec_assoc_map(v).contains_key(k) <==> exists|i: int| 0 <= i < v.len() && v[i].0@ == k,
    decreases v.len(),
{
    if v.len() > 0 {
        lemma_assoc_contains(v.drop_last(), k);
        if v.last().0@ == k {
            assert(v[v.len() - 1].0@ == k);
        } else if exists|i: int| 0 <= i < v.len() && v[i].0@ == k {
            let i = choose|i: int| 0 <= i < v.len() && v[i].0@ == k;
            assert(v.drop_last()[i] == v[i]);
        }
    }
}

/// In a duplicate-free list, the mapping sends each entry's key to
/// that entry's offset.
proof fn lemma_assoc_at(v: Seq<(String, u64)>, i: int)
    requires
        assoc_unique(v),
        0 <= i < v.len(),
    ensures
        spec_assoc_map(v).contains_key(v[i].0@),
        spec_assoc_map(v)[v[i].0@] == v[i].1 as int,
    decreases v.len(),
{
    if i < v.len() - 1 {
        assert(forall|x: int, y: int|
            0 <= x < y < v.drop_last().len() ==> v.drop_last()[x] == v[x] && v.drop_last()[y]
                == v[y]);
        lemma_assoc_at(v.drop_last(), i);
        assert(v[i].0@ != v.last().0@);
    }
}

/// Removing the one entry that names `k` removes `k` from the
/// mapping and keeps the list duplicate-free.
proof fn lemma_assoc_remove(v: Seq<(String, u64)>, i: int)
    requires
        assoc_unique(v),
        0 <= i < v.len(),
    ensures
        spec_assoc_map(v.remove(i)) == spec_assoc_map(v).remove(v[i].0@),
        assoc_unique(v.remove(i)),
    decreases v.len(),
{
    let k = v[i].0@;
    assert(forall|x: int|
        0 <= x < v.remove(i).len() ==> v.remove(i)[x] == (if x < i {
            v[x]
        } else {
            v[x + 1]
        }));
    if i == v.len() - 1 {
        assert(v.remove(i) =~= v.drop_last());
        lemma_assoc_contains(v.drop_last(), k);
        assert(forall|x: int| 0 <= x < v.len() - 1 ==> v.drop_last()[x] == v[x]);
        assert(!spec_assoc_map(v.drop_last()).contains_key(k));
        assert(spec_assoc_map(v.drop_last()) =~= spec_assoc_map(v.drop_last()).insert(
            k,
            v[i].1 as int,
        ).remove(k));
    } else {
        let w = v.drop_last();
        assert(forall|x: int| 0 <= x < w.len() ==> w[x] == v[x]);
        lemma_assoc_remove(w, i);
        assert(v.remove(i).drop_last() =~= w.remove(i));
        assert(v.remove(i).last() == v.last());
        assert(spec_assoc_map(v.remove(i)) == spec_assoc_map(w.remove(i)).insert(
            v.last().0@,
            v.last().1 as int,
        ));
        assert(k != v.last().0@);
        assert(spec_assoc_map(w).remove(k).insert(v.last().0@, v.last().1 as int)
            =~= spec_assoc_map(w).insert(v.last().0@, v.last().1 as int).remove(k));
    }
}

/// Looks `key` up in the index's entry list.
fn index_find(v: &Vec<(String, u64)>, key: &String) -> (r: Option<(usize, u64)>)
    requires
        assoc_unique(v@),
    ensures
        match r {
            Some((i, off)) => {
                &&& i < v@.len() && v@[i as int].0@ == key@ && v@[i as int].1 == off
                &&& spec_assoc_map(v@).contains_key(key@)
                &&& spec_assoc_map(v@)[key@] == off as int
            },
            None => !spec_assoc_map(v@).contains_key(key@),
        },
{
    let mut i: usize = 0;
    while i < v.len()
        invariant
            assoc_unique(v@),
            i <= v@.len(),
            forall|j: int| 0 <= j < i ==> v@[j].0@ != key@,
        decreases v@.len() - i,
    {
        if v[i].0 == *key {
            proof {
                lemma_assoc_at(v@, i as int);
            }
            return Some((i, v[i].1));
        }
        i = i + 1;
    }
    proof {
        lemma_assoc_contains(v@, key@);
    }
    None
}

/// Sets `key` to `off` in the index's entry list, replacing the
/// entry that named it before, if any.
fn index_upsert(v: &mut Vec<(String, u64)>, key: String, off: u64)
    requires
        assoc_unique(old(v)@),
    ensures
        assoc_unique(final(v)@),
        spec_assoc_map(final(v)@) == spec_assoc_map(old(v)@).insert(key@, off as int),
{
    let found = index_find(v, &key);
    match found {
        Some((i, _)) => {
            proof {
                lemma_assoc_remove(v@, i as int);
            }
            v.remove(i);
        },
        None => (),
    }
    proof {
        lemma_assoc_contains(v@, key@);
    }
    assert(!spec_assoc_map(v@).contains_key(key@));
    let ghost w = v@;
    v.push((key, off));
    proof {
        assert(v@.drop_last() =~= w);
        assert(spec_assoc_map(v@) == spec_assoc_map(w).insert(key@, off as int));
        assert(spec_assoc_map(v@) =~= spec_assoc_map(old(v)@).insert(key@, off as int));
        assert(forall|x: int| 0 <= x < w.len() ==> v@[x] == w[x]);
        assert forall|x: int, y: int| 0 <= x < y < v@.len() implies v@[x].0@ != v@[y].0@ by {
            if y == v@.len() - 1 {
                lemma_assoc_contains(w, v@[x].0@);
            }
        }
    }
}

/// The engine's mutable state: the log bytes and the index entries.
///
/// The backing file is a mirror of `log` kept by the surrounding
/// process; every mutation here tells its caller, through its
/// contract, exactly which bytes were appended.
pub struct State {
    log: Vec<u8>,
    index: Vec<(String, u64)>,
}

impl State {
    /// The bytes of the command log.
    pub closed spec fn log_bytes(self) -> Seq<u8> {
        self.log@
    }

    /// The index as a mapping from key to byte offset.
    pub closed spec fn index_map(self) -> Map<Seq<char>, int> {
        spec_assoc_map(self.index@)
    }

    /// Whether no two index entries name the same key.
    pub closed spec fn index_unique(self) -> bool {
        assoc_unique(self.index@)
    }

    /// The records held by the log, each with its offset, assuming
    /// the log parses.
    pub open spec fn records(self) -> Seq<(int, CommandView)> {
        spec_parse_log(self.log_bytes())->Some_0
    }

    /// Well-formed: the log is a whole number of valid records, and
    /// the index is exactly the one derived from those records.
    pub open spec fn wf(self) -> bool {
        &&& spec_parse_log(self.log_bytes()) is Some
        &&& self.index_map() == spec_index_of(self.records())
        &&& self.index_unique()
    }

    /// Opens the store over the bytes of its log file and replays
    /// them to rebuild the index.  Fails exactly when some byte of
    /// the log is not part of a valid record.
    pub fn open(log: Vec<u8>) -> (r: Result<State, KvsError>)
        ensures
            match r {
                Ok(st) => st.wf() && st.log_bytes() == log@,
                Err(e) => e == KvsError::CorruptLog && spec_parse_log(log@) is None,
            },
    {
        let mut st = State { log, index: Vec::new() };
        match st.load_file_pointer_map() {
            Ok(()) => Ok(st),
            Err(e) => Err(e),
        }
    }

    /// One sequential scan of the whole log from byte 0, filling the
    /// index with the offset of every record, a later record for a
    /// key overriding an earlier one.
    #[verifier::loop_isolation(false)]
    fn load_file_pointer_map(&mut self) -> (r: Result<(), KvsError>)
        requires
            old(self).index@.len() == 0,
        ensures
            final(self).log_bytes() == old(self).log_bytes(),
            match r {
                Ok(()) => final(self).wf(),
                Err(e) => e == KvsError::CorruptLog && spec_parse_log(
                    old(self).log_bytes(),
                ) is None,
            },
    {
        let ghost s = self.log@;
        let mut pos: usize = 0;
        let ghost mut rs_done: Seq<(int, CommandView)> = Seq::empty();
        while pos < self.log.len()
            invariant
                pos <= self.log@.len(),
                self.log@ == s,
                match spec_parse_log_from(s, pos as int) {
                    None => spec_parse_log_from(s, 0) is None,
                    Some(rest) => spec_parse_log_from(s, 0) == Some(rs_done + rest),
                },
                assoc_unique(self.index@),
                spec_assoc_map(self.index@) == spec_index_of(rs_done),
            decreases self.log@.len() - pos,
        {
            match parse_command_at(&self.log, pos) {
                None => {
                    return Err(KvsError::CorruptLog);
                },
                Some((cmd, end)) => {
                    let ghost cv = cmd@;
                    let ghost n = end - pos;
                    proof {
                        assert(spec_parse_log_from(s, pos as int) == (match spec_parse_log_from(
                            s,
                            pos + n,
                        ) {
                            None => None::<Seq<(int, CommandView)>>,
                            Some(rest) => Some(seq![(pos as int, cv)] + rest),
                        }));
                    }
                    let Command { key, .. } = cmd;
                    index_upsert(&mut self.index, key, pos as u64);
                    proof {
                        let prev = rs_done;
                        rs_done = rs_done + seq![(pos as int, cv)];
                        assert(rs_done.drop_last() =~= prev);
                        assert(spec_index_of(rs_done) == spec_index_of(prev).insert(
                            cv.key,
                            pos as int,
                        ));
                        if spec_parse_log_from(s, pos + n) is Some {
                            let rest = spec_parse_log_from(s, pos + n)->Some_0;
                            assert(prev + (seq![(pos as int, cv)] + rest) =~= rs_done + rest);
                        }
                    }
                    pos = end;
                },
            }
        }
        proof {
            assert(spec_parse_log_from(s, pos as int) == Some(Seq::<(int, CommandView)>::empty()));
            assert(rs_done + Seq::<(int, CommandView)>::empty() =~= rs_done);
        }
        Ok(())
    }

    /// Reads the value currently held under `key`: the value of the
    /// key's last record when that record is a `Put`, and nothing
    /// when the key has no record or its last record is not a `Put`.
    pub fn get(&self, key: String) -> (r: Result<Option<String>, KvsError>)
        requires
            self.wf(),
        ensures
            match r {
                Ok(v) => match spec_current(self.records(), key@) {
                    Some(val) => v matches Some(s) && s@ == val,
                    None => v is None,
                },
                Err(_) => false,
            },
    {
        match index_find(&self.index, &key) {
            None => {
                proof {
                    lemma_absent_key(self.records(), key@);
                }
                Ok(None)
            },
            Some((_, off)) => {
                let n: usize = self.log.len();
                proof {
                    assert(spec_parse_log_from(self.log@, 0) == Some(self.records()));
                    assert(spec_index_of(self.records()).contains_key(key@));
                    assert(off as int == spec_index_of(self.records())[key@]);
                    lemma_log_index(self.log@, 0, self.records(), key@);
                    assert((off as int) < (n as int));
                }
                match parse_command_at(&self.log, off as usize) {
                    Some((cmd, _)) => match cmd.action {
                        Action::Put => Ok(Some(cmd.value)),
                        _ => Ok(None),
                    },
                    None => {
                        proof {
                            assert(false);
                        }
                        Err(KvsError::CorruptLog)
                    },
                }
            },
        }
    }

    /// Appends a `Put` record for `key` and points the index at it.
    /// The log is only ever extended, never rewritten.
    pub fn set(&mut self, key: String, value: String) -> (r: Result<(), KvsError>)
        requires
            old(self).wf(),
        ensures
            r is Ok,
            final(self).wf(),
            final(self).log_bytes() == old(self).log_bytes() + spec_encode_command(
                CommandView { action: Action::Put, key: key@, value: value@ },
            ),
            final(self).records() == old(self).records() + seq![
                (
                    old(self).log_bytes().len() as int,
                    CommandView { action: Action::Put, key: key@, value: value@ },
                ),
            ],
            old(self).log_bytes().len() <= final(self).log_bytes().len(),
    {
        let cmd = Command { action: Action::Put, key, value };
        let off = match self.append_command(&cmd) {
            Ok(off) => off,
            Err(e) => {
                proof {
                    assert(false);
                }
                return Err(e);
            },
        };
        proof {
            lemma_parse_log_append(old(self).log_bytes(), 0, old(self).records(), cmd@);
        }
        let Command { key: key2, .. } = cmd;
        index_upsert(&mut self.index, key2, off);
        proof {
            let rec = (old(self).log_bytes().len() as int, cmd@);
            let rs2 = old(self).records() + seq![rec];
            assert(rs2.drop_last() =~= old(self).records());
            assert(spec_index_of(rs2) == spec_index_of(old(self).records()).insert(
                cmd@.key,
                old(self).log_bytes().len() as int,
            ));
        }
        Ok(())
    }

    /// Appends a `Remove` record for `key` and points the index at
    /// it, or fails with `KeyNotFound`, appending nothing, when the
    /// key holds no value.
    pub fn remove(&mut self, key: String) -> (r: Result<Option<()>, KvsError>)
        requires
            old(self).wf(),
        ensures
            match r {
                Ok(o) => {
                    &&& o == Some(())
                    &&& spec_current(old(self).records(), key@) is Some
                    &&& final(self).wf()
                    &&& final(self).log_bytes() == old(self).log_bytes() + spec_encode_command(
                        CommandView { action: Action::Remove, key: key@, value: Seq::empty() },
                    )
                    &&& final(self).records() == old(self).records() + seq![
                        (
                            old(self).log_bytes().len() as int,
                            CommandView {
                                action: Action::Remove,
                                key: key@,
                                value: Seq::empty(),
                            },
                        ),
                    ]
                },
                Err(e) => {
                    &&& e == KvsError::KeyNotFound
                    &&& spec_current(old(self).records(), key@) is None
                    &&& *final(self) == *old(self)
                },
            },
            old(self).log_bytes().len() <= final(self).log_bytes().len(),
    {
        let present = match self.get(key.clone()) {
            Ok(Some(_)) => true,
            Ok(None) => false,
            Err(e) => {
                proof {
                    assert(false);
                }
                return Err(e);
            },
        };
        if !present {
            return Err(KvsError::KeyNotFound);
        }
        let cmd = Command { action: Action::Remove, key, value: String::new() };
        let off = match self.append_command(&cmd) {
            Ok(off) => off,
            Err(e) => {
                proof {
                    assert(false);
                }
                return Err(e);
            },
        };
        proof {
            lemma_parse_log_append(old(self).log_bytes(), 0, old(self).records(), cmd@);
        }
        let Command { key: key2, .. } = cmd;
        index_upsert(&mut self.index, key2, off);
        proof {
            let rec = (old(self).log_bytes().len() as int, cmd@);
            let rs2 = old(self).records() + seq![rec];
            assert(rs2.drop_last() =~= old(self).records());
            assert(spec_index_of(rs2) == spec_index_of(old(self).records()).insert(
                cmd@.key,
                old(self).log_bytes().len() as int,
            ));
        }
        Ok(Some(()))
    }

    /// The log's length in bytes.
    pub fn log_len(&self) -> (n: usize)
        ensures
            n == self.log_bytes().len(),
    {
        self.log.len()
    }

    /// A copy of the log's bytes, exactly as the backing file holds
    /// them.
    pub fn log_snapshot(&self) -> (v: Vec<u8>)
        ensures
            v@ == self.log_bytes(),
    {
        vstd::slice::slice_to_vec(self.log.as_slice())
    }

    /// How many records the log holds, counted by one sequential
    /// re-parse.
    #[verifier::loop_isolation(false)]
    pub fn record_count(&self) -> (n: usize)
        requires
            self.wf(),
        ensures
            n == self.records().len(),
    {
        let ghost s = self.log@;
        let mut pos: usize = 0;
        let mut count: usize = 0;
        while pos < self.log.len()
            invariant
                pos <= s.len(),
                count <= pos,
                spec_parse_log_from(s, pos as int) matches Some(rest) && count + rest.len()
                    == self.records().len(),
            decreases s.len() - pos,
        {
            match parse_command_at(&self.log, pos) {
                Some((_, end)) => {
                    proof {
                        let rest = spec_parse_log_from(s, pos as int)->Some_0;
                        let n = end - pos;
                        assert(spec_parse_log_from(s, pos + n) matches Some(rest2) && rest
                            == seq![(pos as int, rest[0].1)] + rest2);
                    }
                    count = count + 1;
                    pos = end;
                },
                None => {
                    proof {
                        assert(false);
                    }
                    return count;
                },
            }
        }
        count
    }

    /// Appends the encoding of one record at the current end of the
    /// log and returns the offset where it starts.
    fn append_command(&mut self, cmd: &Command) -> (r: Result<u64, KvsError>)
        ensures
            r matches Ok(off) && off == old(self).log@.len(),
            final(self).log@ == old(self).log@ + spec_encode_command(cmd@),
            final(self).index == old(self).index,
            cmd_wf(cmd@),
    {
        let off = self.log.len() as u64;
        encode_command(cmd, &mut self.log);
        Ok(off)
    }
}

/// What a key holds is a function of the log bytes alone: two
/// well-formed states over the same log, such as one before closing
/// and one rebuilt by `open` after reopening, answer every read the
/// same way.
pub proof fn lemma_reopen_reads(before: State, after: State, k: Seq<char>)
    requires
        before.wf(),
        after.wf(),
        after.log_bytes() == before.log_bytes(),
    ensures
        spec_current(after.records(), k) == spec_current(before.records(), k),
{
}

/// Last write wins: once a record putting `v` under `k` is appended,
/// `k` holds `v`, whatever was logged before.
pub proof fn lemma_last_write_wins(
    rs: Seq<(int, CommandView)>,
    off: int,
    k: Seq<char>,
    v: Seq<char>,
)
    ensures
        spec_current(
            rs + seq![(off, CommandView { action: Action::Put, key: k, value: v })],
            k,
        ) == Some(v),
{
    let rs2 = rs + seq![(off, CommandView { action: Action::Put, key: k, value: v })];
    assert(rs2.last() == (off, CommandView { action: Action::Put, key: k, value: v }));
}

/// Tombstone: once a record removing `k` is appended, `k` holds
/// nothing, whatever was logged before.
pub proof fn lemma_tombstone(rs: Seq<(int, CommandView)>, off: int, k: Seq<char>, v: Seq<char>)
    ensures
        spec_current(
            rs + seq![(off, CommandView { action: Action::Remove, key: k, value: v })],
            k,
        ) is None,
{
    let rs2 = rs + seq![(off, CommandView { action: Action::Remove, key: k, value: v })];
    assert(rs2.last() == (off, CommandView { action: Action::Remove, key: k, value: v }));
}

/// Appending a record for one key leaves what every other key holds
/// unchanged.
pub proof fn lemma_other_keys_unchanged(
    rs: Seq<(int, CommandView)>,
    r: (int, CommandView),
    k: Seq<char>,
)
    requires
        r.1.key != k,
    ensures
        spec_current(rs + seq![r], k) == spec_current(rs, k),
{
    let rs2 = rs + seq![r];
    assert(rs2.last() == r);
    assert(rs2.drop_last() =~= rs);
}

} // verus!
