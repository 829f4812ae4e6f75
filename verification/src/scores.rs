//! The score table: an ordered list of (name, score) pairs kept sorted
//! descending by score, with bounded insertion and a small versioned binary
//! file format. Reading and writing the file itself is left to the caller;
//! this module turns tables into bytes and bytes back into tables.

use vstd::prelude::*;
use vstd::seq_lib::lemma_multiset_commutative;
use vstd::multiset::Multiset;

verus! {

broadcast use vstd::seq_lib::group_to_multiset_ensures;

/// Most entries a persisted table keeps.
pub const TABLE_CAP: usize = 10;

/// Longest name the format can carry (its length is one byte).
pub const NAME_CAP: usize = 255;

/// One score-table entry: a short name and the score reached.
#[derive(Debug, Clone)]
pub struct ScoreEntry {
    pub name: Vec<u8>,
    pub score: u64,
}

/// The mathematical shape of an entry.
#[verifier::ext_equal]
pub struct EntryView {
    pub name: Seq<u8>,
    pub score: u64,
}

impl View for ScoreEntry {
    type V = EntryView;

    open spec fn view(&self) -> EntryView {
        EntryView { name: self.name@, score: self.score }
    }
}

impl ScoreEntry {
    pub open spec fn wf(self) -> bool {
        self.name@.len() <= NAME_CAP
    }
}

/// Scores never increase along the list: the best entry comes first.
pub open spec fn sorted_desc(s: Seq<EntryView>) -> bool {
    forall|i: int, j: int| 0 <= i < j < s.len() ==> s[i].score >= s[j].score
}

/// The list with `e` placed before the first entry whose score is strictly
/// smaller — among equal scores the new entry comes last.
pub open spec fn spec_insert_sorted(s: Seq<EntryView>, e: EntryView) -> Seq<EntryView>
    decreases s.len(),
{
    if s.len() == 0 {
        seq![e]
    } else if s[0].score >= e.score {
        seq![s[0]] + spec_insert_sorted(s.drop_first(), e)
    } else {
        seq![e] + s
    }
}

/// Where the new entry lands: inserting at index `k` — the first index whose
/// score is strictly smaller, or the end — is exactly `spec_insert_sorted`.
pub proof fn lemma_insert_sorted_at(s: Seq<EntryView>, e: EntryView, k: int)
    requires
        0 <= k <= s.len(),
        forall|i: int| 0 <= i < k ==> s[i].score >= e.score,
        k == s.len() || s[k].score < e.score,
    ensures
        spec_insert_sorted(s, e) =~= s.take(k) + seq![e] + s.skip(k),
    decreases s.len(),
{
    if s.len() == 0 {
        assert(spec_insert_sorted(s, e) =~= s.take(k) + seq![e] + s.skip(k));
    } else if k == 0 {
        assert(s[0].score < e.score);
        assert(spec_insert_sorted(s, e) =~= s.take(0) + seq![e] + s.skip(0));
    } else {
        assert(s[0].score >= e.score);
        lemma_insert_sorted_at(s.drop_first(), e, k - 1);
        assert(spec_insert_sorted(s, e) =~= s.take(k) + seq![e] + s.skip(k));
    }
}

/// Insertion keeps the list sorted, grows it by one, and adds exactly the
/// new entry to its contents.
pub proof fn lemma_insert_sorted_props(s: Seq<EntryView>, e: EntryView)
    requires
        sorted_desc(s),
    ensures
        sorted_desc(spec_insert_sorted(s, e)),
        spec_insert_sorted(s, e).len() == s.len() + 1,
        spec_insert_sorted(s, e).to_multiset() == s.to_multiset().insert(e),
    decreases s.len(),
{
    let r = spec_insert_sorted(s, e);
    if s.len() == 0 {
        assert(seq![e] =~= Seq::<EntryView>::empty().push(e));
        assert(s.to_multiset() =~= Multiset::<EntryView>::empty());
        assert(r.to_multiset() == s.to_multiset().insert(e));
    } else if s[0].score >= e.score {
        let rest = spec_insert_sorted(s.drop_first(), e);
        assert(sorted_desc(s.drop_first()));
        lemma_insert_sorted_props(s.drop_first(), e);
        assert forall|i: int, j: int| 0 <= i < j < r.len() implies r[i].score >= r[j].score by {
            if i == 0 {
                // every element of rest is either from s.drop_first() or e,
                // all with score <= s[0].score
                assert(rest.to_multiset().contains(r[j]));
                if s.drop_first().to_multiset().contains(r[j]) {
                    let w = choose|w: int|
                        0 <= w < s.drop_first().len() && s.drop_first()[w] == r[j];
                    assert(s[w + 1] == r[j]);
                }
            } else {
                assert(r[i] == rest[i - 1] && r[j] == rest[j - 1]);
            }
        }
        lemma_multiset_commutative(seq![s[0]], rest);
        assert(seq![s[0]] =~= Seq::<EntryView>::empty().push(s[0]));
        assert(seq![s[0]] + s.drop_first() =~= s);
        lemma_multiset_commutative(seq![s[0]], s.drop_first());
        assert(r.to_multiset() =~= s.to_multiset().insert(e));
    } else {
        assert forall|i: int, j: int| 0 <= i < j < r.len() implies r[i].score >= r[j].score by {
            if i > 0 {
                assert(r[i] == s[i - 1] && r[j] == s[j - 1]);
            } else {
                assert(r[j] == s[j - 1]);
                if j - 1 > 0 {
                    assert(s[0].score >= s[j - 1].score);
                }
            }
        }
        lemma_multiset_commutative(seq![e], s);
        assert(seq![e] =~= Seq::<EntryView>::empty().push(e));
        assert(r.to_multiset() =~= s.to_multiset().insert(e));
    }
}

/// The list sorted descending by score, by inserting its entries in order
/// into an initially empty list.
pub open spec fn spec_sort_desc(s: Seq<EntryView>) -> Seq<EntryView>
    decreases s.len(),
{
    if s.len() == 0 {
        Seq::empty()
    } else {
        spec_insert_sorted(spec_sort_desc(s.drop_last()), s.last())
    }
}

/// Sorting yields a sorted list with exactly the same entries.
pub proof fn lemma_sort_desc_props(s: Seq<EntryView>)
    ensures
        sorted_desc(spec_sort_desc(s)),
        spec_sort_desc(s).len() == s.len(),
        spec_sort_desc(s).to_multiset() == s.to_multiset(),
    decreases s.len(),
{
    if s.len() > 0 {
        lemma_sort_desc_props(s.drop_last());
        lemma_insert_sorted_props(spec_sort_desc(s.drop_last()), s.last());
        assert(s =~= s.drop_last().push(s.last()));
        assert(s.drop_last().push(s.last()).to_multiset() == s.drop_last().to_multiset().insert(
            s.last(),
        ));
    }
}

/// The persisted table: entries sorted descending by score.
#[derive(Debug)]
pub struct ScoreTable {
    entries: Vec<ScoreEntry>,
}

impl View for ScoreTable {
    type V = Seq<EntryView>;

    closed spec fn view(&self) -> Seq<EntryView> {
        Seq::new(self.entries@.len(), |i: int| self.entries@[i]@)
    }
}

impl ScoreTable {
    pub open spec fn wf(self) -> bool {
        &&& sorted_desc(self@)
        &&& forall|i: int| 0 <= i < self@.len() ==> #[trigger] self@[i].name.len() <= NAME_CAP
    }

    /// The empty table.
    pub fn new() -> (r: ScoreTable)
        ensures
            r.wf(),
            r@ =~= Seq::<EntryView>::empty(),
    {
        ScoreTable { entries: Vec::new() }
    }

    /// How many entries the table holds.
    pub fn len(&self) -> (r: usize)
        ensures
            r == self@.len(),
    {
        self.entries.len()
    }

    /// A copy of the entry at `i` — best scores come first.
    pub fn entry(&self, i: usize) -> (r: ScoreEntry)
        requires
            i < self@.len(),
        ensures
            r@ == self@[i as int],
    {
        let e = &self.entries[i];
        ScoreEntry { name: e.name.clone(), score: e.score }
    }

    /// Places the entry by score, keeping the descending order; among equal
    /// scores the newcomer goes last. The table is not truncated here.
    fn insert_sorted(&mut self, e: ScoreEntry)
        requires
            old(self).wf(),
            e.wf(),
        ensures
            final(self).wf(),
            final(self)@ == spec_insert_sorted(old(self)@, e@),
    {
        let mut k: usize = 0;
        while k < self.entries.len() && self.entries[k].score >= e.score
            invariant
                k <= self@.len(),
                forall|i: int| 0 <= i < k ==> self@[i].score >= e@.score,
                self@ == old(self)@,
                self.entries@.len() == self@.len(),
                old(self).wf(),
                e.wf(),
            decreases self@.len() - k,
        {
            k = k + 1;
        }
        proof {
            lemma_insert_sorted_at(old(self)@, e@, k as int);
            lemma_insert_sorted_props(old(self)@, e@);
        }
        self.entries.insert(k, e);
        proof {
            assert(self@ =~= old(self)@.take(k as int) + seq![e@] + old(self)@.skip(k as int));
        }
    }

    /// Inserts an entry and truncates the table back to its cap, dropping
    /// the worst entry when the table was already full.
    pub fn insert(&mut self, e: ScoreEntry)
        requires
            old(self).wf(),
            e.wf(),
        ensures
            final(self).wf(),
            final(self)@ == spec_table_insert(old(self)@, e@),
    {
        self.insert_sorted(e);
        if self.entries.len() > TABLE_CAP {
            self.entries.truncate(TABLE_CAP);
            proof {
                assert(self@ =~= spec_table_insert(old(self)@, e@));
            }
        }
    }
}

/// Insertion into the persisted table: placed by score, then capped.
pub open spec fn spec_table_insert(t: Seq<EntryView>, e: EntryView) -> Seq<EntryView> {
    let u = spec_insert_sorted(t, e);
    if u.len() > TABLE_CAP {
        u.take(TABLE_CAP as int)
    } else {
        u
    }
}

/// The eight magic bytes that open every score file: the ASCII text
/// "tet.rs 1", the "1" being the format version.
pub open spec fn spec_magic() -> Seq<u8> {
    seq![116u8, 101u8, 116u8, 46u8, 114u8, 115u8, 32u8, 49u8]
}

fn magic_byte(k: usize) -> (r: u8)
    requires
        k < 8,
    ensures
        r == spec_magic()[k as int],
{
    match k {
        0 => 116,
        1 => 101,
        2 => 116,
        3 => 46,
        4 => 114,
        5 => 115,
        6 => 32,
        _ => 49,
    }
}

/// A score as eight little-endian bytes.
pub open spec fn spec_le8(v: u64) -> Seq<u8> {
    seq![
        (v & 0xff) as u8,
        ((v >> 8) & 0xff) as u8,
        ((v >> 16) & 0xff) as u8,
        ((v >> 24) & 0xff) as u8,
        ((v >> 32) & 0xff) as u8,
        ((v >> 40) & 0xff) as u8,
        ((v >> 48) & 0xff) as u8,
        ((v >> 56) & 0xff) as u8,
    ]
}

/// Eight little-endian bytes read back as a score.
pub open spec fn spec_le8_read(s: Seq<u8>) -> u64 {
    ((s[0] as u64) | ((s[1] as u64) << 8) | ((s[2] as u64) << 16) | ((s[3] as u64) << 24) | ((
    s[4] as u64) << 32) | ((s[5] as u64) << 40) | ((s[6] as u64) << 48) | ((s[7] as u64)
        << 56)) as u64
}

/// Reading the eight bytes a score was written as gives the score back.
pub proof fn lemma_le8_roundtrip(v: u64)
    ensures
        spec_le8(v).len() == 8,
        spec_le8_read(spec_le8(v)) == v,
{
    let s = spec_le8(v);
    assert((((v & 0xff) as u8 as u64) | (((v >> 8) & 0xff) as u8 as u64) << 8 | (((v >> 16)
        & 0xff) as u8 as u64) << 16 | (((v >> 24) & 0xff) as u8 as u64) << 24 | (((v >> 32)
        & 0xff) as u8 as u64) << 32 | (((v >> 40) & 0xff) as u8 as u64) << 40 | (((v >> 48)
        & 0xff) as u8 as u64) << 48 | (((v >> 56) & 0xff) as u8 as u64) << 56) as u64 == v)
        by (bit_vector);
}

/// Reads a little-endian score at offset `off`.
fn read_le8(bytes: &Vec<u8>, off: usize) -> (r: u64)
    requires
        off + 8 <= bytes.len(),
    ensures
        r == spec_le8_read(bytes@.subrange(off as int, off + 8)),
{
    let r = (bytes[off] as u64) | ((bytes[off + 1] as u64) << 8) | ((bytes[off + 2] as u64) << 16)
        | ((bytes[off + 3] as u64) << 24) | ((bytes[off + 4] as u64) << 32) | ((bytes[off
        + 5] as u64) << 40) | ((bytes[off + 6] as u64) << 48) | ((bytes[off + 7] as u64) << 56);
    proof {
        let s = bytes@.subrange(off as int, off + 8);
        assert(s[0] == bytes@[off as int] && s[1] == bytes@[off + 1] && s[2] == bytes@[off + 2]
            && s[3] == bytes@[off + 3] && s[4] == bytes@[off + 4] && s[5] == bytes@[off + 5] && s[6]
            == bytes@[off + 6] && s[7] == bytes@[off + 7]);
    }
    r
}

/// Appends a score as eight little-endian bytes.
fn write_le8(out: &mut Vec<u8>, v: u64)
    ensures
        final(out)@ == old(out)@ + spec_le8(v),
{
    out.push((v & 0xff) as u8);
    out.push(((v >> 8) & 0xff) as u8);
    out.push(((v >> 16) & 0xff) as u8);
    out.push(((v >> 24) & 0xff) as u8);
    out.push(((v >> 32) & 0xff) as u8);
    out.push(((v >> 40) & 0xff) as u8);
    out.push(((v >> 48) & 0xff) as u8);
    out.push(((v >> 56) & 0xff) as u8);
    proof {
        assert(out@ =~= old(out)@ + spec_le8(v));
    }
}

/// One entry on disk: a length byte, the name bytes, the score bytes.
pub open spec fn spec_encode_entry(e: EntryView) -> Seq<u8> {
    seq![e.name.len() as u8] + e.name + spec_le8(e.score)
}

/// A run of entries on disk, in list order.
pub open spec fn spec_encode_entries(s: Seq<EntryView>) -> Seq<u8>
    decreases s.len(),
{
    if s.len() == 0 {
        Seq::empty()
    } else {
        spec_encode_entry(s[0]) + spec_encode_entries(s.drop_first())
    }
}

/// Encoding one more entry at the end appends its bytes.
pub proof fn lemma_encode_entries_snoc(s: Seq<EntryView>, e: EntryView)
    ensures
        spec_encode_entries(s.push(e)) == spec_encode_entries(s) + spec_encode_entry(e),
    decreases s.len(),
{
    if s.len() == 0 {
        assert(s.push(e)[0] == e);
        assert(s.push(e).drop_first() =~= Seq::<EntryView>::empty());
        assert(spec_encode_entries(s.push(e).drop_first()) == Seq::<u8>::empty());
        assert(spec_encode_entries(s) == Seq::<u8>::empty());
        assert(spec_encode_entries(s.push(e)) =~= spec_encode_entries(s) + spec_encode_entry(e));
    } else {
        assert(s.push(e)[0] == s[0]);
        assert(s.push(e).drop_first() =~= s.drop_first().push(e));
        lemma_encode_entries_snoc(s.drop_first(), e);
        assert(spec_encode_entries(s.push(e)) == spec_encode_entry(s[0]) + (spec_encode_entries(
            s.drop_first(),
        ) + spec_encode_entry(e)));
        assert(spec_encode_entries(s.push(e)) =~= spec_encode_entries(s) + spec_encode_entry(e));
    }
}

/// A whole table on disk: the magic, the entry count (capped at
/// `TABLE_CAP`), then the kept entries written worst first — ascending by
/// score when the table is sorted descending.
pub open spec fn spec_encode(t: Seq<EntryView>) -> Seq<u8> {
    let n = if t.len() <= TABLE_CAP {
        t.len() as int
    } else {
        TABLE_CAP as int
    };
    spec_magic() + seq![n as u8] + spec_encode_entries(t.take(n).reverse())
}

/// Why a score file was rejected.
#[derive(Clone, Copy, Debug, PartialEq, Eq, Structural)]
pub enum ScoreError {
    /// The data ends before the declared contents do.
    Truncated,
    /// The file does not open with the magic text.
    BadMagic,
    /// Bytes remain after the declared entries.
    TrailingData,
}

/// Parses `n` entries starting at `from`: the entries and the offset just
/// after them, or nothing if the data runs out first.
pub open spec fn spec_parse_entries(b: Seq<u8>, from: int, n: int) -> Option<(Seq<EntryView>, int)>
    decreases n,
{
    if n <= 0 {
        Some((Seq::empty(), from))
    } else if from + 1 > b.len() {
        None
    } else {
        let nl = b[from] as int;
        if from + 1 + nl + 8 > b.len() {
            None
        } else {
            let e = EntryView {
                name: b.subrange(from + 1, from + 1 + nl),
                score: spec_le8_read(b.subrange(from + 1 + nl, from + 1 + nl + 8)),
            };
            match spec_parse_entries(b, from + 1 + nl + 8, n - 1) {
                Some(rest) => Some((seq![e] + rest.0, rest.1)),
                None => None,
            }
        }
    }
}

/// Parses a whole file: the magic, the count, exactly that many entries,
/// and nothing after them.
pub open spec fn spec_parse(b: Seq<u8>) -> Option<Seq<EntryView>> {
    if b.len() >= 9 && b.take(8) == spec_magic() {
        match spec_parse_entries(b, 9, b[8] as int) {
            Some(parsed) => if parsed.1 == b.len() {
                Some(parsed.0)
            } else {
                None
            },
            None => None,
        }
    } else {
        None
    }
}

/// What loading a file yields: the parsed entries, re-sorted descending by
/// score whatever their on-disk order was.
pub open spec fn spec_decode(b: Seq<u8>) -> Option<Seq<EntryView>> {
    match spec_parse(b) {
        Some(es) => Some(spec_sort_desc(es)),
        None => None,
    }
}

/// The error a rejected file is reported with.
pub open spec fn spec_decode_err(b: Seq<u8>) -> ScoreError {
    if b.len() < 8 {
        ScoreError::Truncated
    } else if b.take(8) != spec_magic() {
        ScoreError::BadMagic
    } else if b.len() < 9 {
        ScoreError::Truncated
    } else if spec_parse_entries(b, 9, b[8] as int) is None {
        ScoreError::Truncated
    } else {
        ScoreError::TrailingData
    }
}

impl ScoreTable {
    /// Serialises the table for the score file: magic, count, then at most
    /// `TABLE_CAP` entries, worst kept score first.
    pub fn encode(&self) -> (r: Vec<u8>)
        requires
            self.wf(),
        ensures
            r@ == spec_encode(self@),
    {
        let n = if self.entries.len() <= TABLE_CAP {
            self.entries.len()
        } else {
            TABLE_CAP
        };
        let ghost kept = self@.take(n as int).reverse();
        let mut out: Vec<u8> = Vec::new();
        let mut k: usize = 0;
        while k < 8
            invariant
                k <= 8,
                out@ =~= spec_magic().take(k as int),
            decreases 8 - k,
        {
            out.push(magic_byte(k));
            k = k + 1;
        }
        proof {
            assert(out@ =~= spec_magic());
        }
        out.push(n as u8);
        let mut k: usize = 0;
        while k < n
            invariant
                self.wf(),
                k <= n,
                n <= self.entries@.len(),
                n <= TABLE_CAP,
                n == (if self@.len() <= TABLE_CAP {
                    self@.len() as int
                } else {
                    TABLE_CAP as int
                }),
                self.entries@.len() == self@.len(),
                kept == self@.take(n as int).reverse(),
                out@ == spec_magic() + seq![n as u8] + spec_encode_entries(kept.take(k as int)),
            decreases n - k,
        {
            let e = &self.entries[n - 1 - k];
            proof {
                assert(kept[k as int] == self@[n - 1 - k]);
                assert(e@ == kept[k as int]);
                assert(self@[n - 1 - k].name.len() <= NAME_CAP);
            }
            out.push(e.name.len() as u8);
            let mut j: usize = 0;
            let ghost mid = out@;
            while j < e.name.len()
                invariant
                    j <= e.name@.len(),
                    out@ == mid + e.name@.take(j as int),
                decreases e.name@.len() - j,
            {
                out.push(e.name[j]);
                proof {
                    assert(out@ =~= mid + e.name@.take(j + 1));
                }
                j = j + 1;
            }
            proof {
                assert(e.name@.take(e.name@.len() as int) =~= e.name@);
            }
            write_le8(&mut out, e.score);
            proof {
                lemma_encode_entries_snoc(kept.take(k as int), kept[k as int]);
                assert(kept.take(k + 1) =~= kept.take(k as int).push(kept[k as int]));
                assert(out@ =~= spec_magic() + seq![n as u8] + spec_encode_entries(
                    kept.take(k + 1),
                ));
            }
            k = k + 1;
        }
        proof {
            assert(kept.take(kept.len() as int) =~= kept);
            assert(out@ =~= spec_encode(self@));
        }
        out
    }

    /// Parses a score file: rejected when the magic is wrong, the data runs
    /// out before the declared entries end, or bytes trail after them. The
    /// loaded entries are re-sorted descending by score whatever order the
    /// file held.
    pub fn decode(bytes: &Vec<u8>) -> (r: Result<ScoreTable, ScoreError>)
        ensures
            r matches Ok(t) ==> t.wf() && spec_decode(bytes@) == Some(t@),
            r matches Err(x) ==> spec_decode(bytes@) is None && x == spec_decode_err(bytes@),
    {
        if bytes.len() < 8 {
            return Err(ScoreError::Truncated);
        }
        let mut k: usize = 0;
        while k < 8
            invariant
                bytes@.len() >= 8,
                k <= 8,
                forall|i: int| 0 <= i < k ==> bytes@[i] == spec_magic()[i],
            decreases 8 - k,
        {
            if bytes[k] != magic_byte(k) {
                proof {
                    assert(bytes@.take(8)[k as int] != spec_magic()[k as int]);
                    assert(bytes@.take(8) != spec_magic());
                }
                return Err(ScoreError::BadMagic);
            }
            k = k + 1;
        }
        proof {
            assert(bytes@.take(8) =~= spec_magic());
        }
        if bytes.len() < 9 {
            return Err(ScoreError::Truncated);
        }
        let count = bytes[8] as usize;
        let ghost total: int = count as int;
        let mut table = ScoreTable::new();
        let ghost mut parsed: Seq<EntryView> = Seq::empty();
        let mut off: usize = 9;
        let mut k: usize = 0;
        while k < count
            invariant
                bytes@.len() >= 9,
                bytes@.len() <= usize::MAX,
                bytes@.take(8) == spec_magic(),
                total == bytes@[8] as int,
                k <= count,
                count == total,
                9 <= off <= bytes@.len(),
                table.wf(),
                table@ == spec_sort_desc(parsed),
                parsed.len() == k,
                (match spec_parse_entries(bytes@, off as int, total - k) {
                    Some(rest) => spec_parse_entries(bytes@, 9, total) == Some::<(Seq<EntryView>, int)>(
                        (parsed + rest.0, rest.1),
                    ),
                    None => spec_parse_entries(bytes@, 9, total) is None,
                }),
            decreases count - k,
        {
            if off >= bytes.len() {
                return Err(ScoreError::Truncated);
            }
            let nl = bytes[off] as usize;
            if nl + 8 > bytes.len() - off - 1 {
                return Err(ScoreError::Truncated);
            }
            let mut name: Vec<u8> = Vec::new();
            let mut j: usize = 0;
            while j < nl
                invariant
                    off + 1 + nl <= bytes@.len(),
                    bytes@.len() <= usize::MAX,
                    j <= nl,
                    name@ =~= bytes@.subrange(off + 1, off + 1 + j),
                decreases nl - j,
            {
                name.push(bytes[off + 1 + j]);
                proof {
                    assert(name@ =~= bytes@.subrange(off + 1, off + 1 + j + 1));
                }
                j = j + 1;
            }
            let score = read_le8(bytes, off + 1 + nl);
            let e = ScoreEntry { name, score };
            let ghost ev = e@;
            proof {
                assert(name@ =~= bytes@.subrange(off + 1, off + 1 + nl));
                assert(ev == EntryView {
                    name: bytes@.subrange(off + 1, off + 1 + nl),
                    score: spec_le8_read(bytes@.subrange(off + 1 + nl, off + 1 + nl + 8)),
                });
            }
            table.insert_sorted(e);
            proof {
                let prev = parsed;
                parsed = parsed.push(ev);
                assert(parsed.drop_last() =~= prev);
                assert(parsed.last() == ev);
                // one unfolding of the sort and of the remaining-entries parse
                assert(spec_sort_desc(parsed) == spec_insert_sorted(
                    spec_sort_desc(parsed.drop_last()),
                    parsed.last(),
                ));
                let cur = spec_parse_entries(bytes@, off as int, total - k);
                let rest = spec_parse_entries(bytes@, off + 1 + nl + 8, total - (k + 1));
                assert(cur == (match rest {
                    Some(r0) => Some::<(Seq<EntryView>, int)>((seq![ev] + r0.0, r0.1)),
                    None => None::<(Seq<EntryView>, int)>,
                }));
                if rest is Some {
                    assert(prev + (seq![ev] + rest->Some_0.0) =~= parsed + rest->Some_0.0);
                }
            }
            off = off + 1 + nl + 8;
            k = k + 1;
        }
        if off != bytes.len() {
            return Err(ScoreError::TrailingData);
        }
        proof {
            assert(spec_parse_entries(bytes@, off as int, 0) == Some::<(Seq<EntryView>, int)>((
                Seq::empty(),
                off as int,
            )));
            assert(parsed + Seq::<EntryView>::empty() =~= parsed);
            assert(spec_parse(bytes@) == Some(parsed));
        }
        Ok(table)
    }
}


/// Parsing the encoding of a run of entries, placed after any prefix, gives
/// the same entries back and consumes everything.
proof fn lemma_parse_encode_entries(prefix: Seq<u8>, es: Seq<EntryView>)
    requires
        forall|i: int| 0 <= i < es.len() ==> #[trigger] es[i].name.len() <= NAME_CAP,
    ensures
        spec_parse_entries(
            prefix + spec_encode_entries(es),
            prefix.len() as int,
            es.len() as int,
        ) == Some::<(Seq<EntryView>, int)>(
            (es, (prefix + spec_encode_entries(es)).len() as int),
        ),
    decreases es.len(),
{
    let b = prefix + spec_encode_entries(es);
    let from = prefix.len() as int;
    if es.len() == 0 {
        assert(spec_encode_entries(es) =~= Seq::<u8>::empty());
        assert(b.len() == from);
        assert(spec_parse_entries(b, from, 0) == Some::<(Seq<EntryView>, int)>((
            Seq::empty(),
            from,
        )));
        assert(Seq::<EntryView>::empty() =~= es);
    } else {
        let e = es[0];
        let enc0 = spec_encode_entry(e);
        let rest_es = es.drop_first();
        assert(spec_encode_entries(es) == enc0 + spec_encode_entries(rest_es));
        assert(b =~= (prefix + enc0) + spec_encode_entries(rest_es));
        let nl = e.name.len() as int;
        assert(enc0.len() == 1 + nl + 8);
        assert(b[from] == enc0[0]);
        assert(enc0[0] == e.name.len() as u8);
        assert((e.name.len() as u8) as int == nl);
        assert(from + 1 + nl + 8 <= b.len());
        assert(b.subrange(from + 1, from + 1 + nl) =~= e.name);
        assert(b.subrange(from + 1 + nl, from + 1 + nl + 8) =~= spec_le8(e.score));
        lemma_le8_roundtrip(e.score);
        let parsed_e = EntryView {
            name: b.subrange(from + 1, from + 1 + nl),
            score: spec_le8_read(b.subrange(from + 1 + nl, from + 1 + nl + 8)),
        };
        assert(parsed_e =~= e);
        lemma_parse_encode_entries(prefix + enc0, rest_es);
        assert((prefix + enc0) + spec_encode_entries(rest_es) == b);
        assert((prefix + enc0).len() as int == from + 1 + nl + 8);
        assert(spec_parse_entries(b, from + 1 + nl + 8, rest_es.len() as int)
            == Some::<(Seq<EntryView>, int)>((rest_es, b.len() as int)));
        assert(seq![e] + rest_es =~= es);
        assert(spec_parse_entries(b, from, es.len() as int) == Some::<(Seq<EntryView>, int)>((
            es,
            b.len() as int,
        )));
    }
}

/// Law: a saved table loads back. Encoding a sorted table and decoding the
/// bytes succeeds and reproduces the kept entries — all of them for a table
/// within the cap, the top `TABLE_CAP` by score otherwise — as the same set
/// of (name, score) pairs, sorted descending by score.
pub proof fn lemma_score_table_round_trip(t: Seq<EntryView>)
    requires
        sorted_desc(t),
        forall|i: int| 0 <= i < t.len() ==> #[trigger] t[i].name.len() <= NAME_CAP,
    ensures
        ({
            let kept = t.take(
                if t.len() <= TABLE_CAP {
                    t.len() as int
                } else {
                    TABLE_CAP as int
                },
            );
            &&& spec_decode(spec_encode(t)) is Some
            &&& spec_decode(spec_encode(t))->Some_0.to_multiset() == kept.to_multiset()
            &&& sorted_desc(spec_decode(spec_encode(t))->Some_0)
        }),
{
    let n: int = if t.len() <= TABLE_CAP {
        t.len() as int
    } else {
        TABLE_CAP as int
    };
    let kept = t.take(n);
    let rev = kept.reverse();
    let b = spec_encode(t);
    let prefix = spec_magic() + seq![n as u8];
    assert(forall|i: int| 0 <= i < rev.len() ==> #[trigger] rev[i].name.len() <= NAME_CAP);
    assert(b =~= prefix + spec_encode_entries(rev));
    lemma_parse_encode_entries(prefix, rev);
    assert(prefix.len() == 9);
    assert(b.len() >= 9);
    assert(b.take(8) =~= spec_magic());
    assert(b[8] == n as u8);
    assert((n as u8) as int == rev.len() as int);
    assert(spec_parse_entries(b, 9, b[8] as int) == Some::<(Seq<EntryView>, int)>((
        rev,
        b.len() as int,
    )));
    assert(spec_parse(b) == Some(rev));
    assert(spec_decode(b) == Some(spec_sort_desc(rev)));
    lemma_sort_desc_props(rev);
    kept.lemma_reverse_to_multiset();
}

} // verus!
