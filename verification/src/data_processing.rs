//! Corpus analysis: names are cut into syllables and two-part splits, and
//! every syllable and part is tallied by position and by gender.

use vstd::prelude::*;
use vstd::string::*;
use vstd::multiset::*;
use vstd::seq_lib::{to_multiset_build, to_multiset_contains, to_multiset_remove};
use crate::tally::{
    Contribution, Role, SegmentTally, TallyView, credits_ok, deposit, deposited, distinct_keys,
    gender_ratio, lemma_deposited_distinct, lemma_deposited_occurrences, lemma_ratio_in_range,
    lemma_total_share, part_role, part_share, ratio_units, role_at, role_count, role_of, score,
    share_of, table_fits, table_wf, tally_views, total_occurrences, total_score, total_share,
};
use crate::tally::{find_from, lemma_find_from};

verus! {

/// One, in the fixed-point scale that every score and ratio uses.
pub const UNIT: u64 = 1_000_000;

#[derive(Clone, Copy, Debug, PartialEq, Eq, Structural)]
pub enum Gender {
    Male,
    Female,
    Unknown,
}

/// Which half of a two-part name an entry is, or `Lone` for a whole name
/// that has no halves.
#[derive(Clone, Copy, Debug, PartialEq, Eq, Structural, Hash)]
pub enum Position {
    First,
    Second,
    Lone,
}

#[derive(Clone, Copy, Debug, PartialEq, Eq, Structural)]
pub enum DataError {
    /// A declared boundary does not lie strictly inside the name.
    BoundaryOutOfRange,
    /// A gender code of more than one character.
    UnreadableGender,
    /// A score of the corpus does not fit its type.
    TooLarge,
}

/// One row of the corpus, as read.
#[derive(Clone, Debug, PartialEq, Eq)]
pub struct NameRecord {
    pub name: String,
    pub clean_name: String,
    /// The syllables, separated by periods.
    pub syllables: String,
    pub count: usize,
    /// The number of syllables in the first part, where the corpus declares it.
    pub first_part: Option<usize>,
    /// `m`, `f`, or nothing or any other single character for unknown.
    pub gender: String,
}

#[derive(Clone, Debug, PartialEq, Eq, Hash)]
pub struct PartEntry {
    pub value: String,
    pub len: usize,
    pub position: Position,
}

pub ghost struct PartView {
    pub value: Seq<char>,
    pub len: nat,
    pub position: Position,
}

impl View for PartEntry {
    type V = PartView;

    open spec fn view(&self) -> PartView {
        PartView { value: self.value@, len: self.len as nat, position: self.position }
    }
}

impl PartEntry {
    pub fn first(value: String, len: usize) -> (r: PartEntry)
        ensures
            r@ == (PartView { value: value@, len: len as nat, position: Position::First }),
    {
        PartEntry { value, len, position: Position::First }
    }

    pub fn second(value: String, len: usize) -> (r: PartEntry)
        ensures
            r@ == (PartView { value: value@, len: len as nat, position: Position::Second }),
    {
        PartEntry { value, len, position: Position::Second }
    }

    pub fn lone(value: String, len: usize) -> (r: PartEntry)
        ensures
            r@ == (PartView { value: value@, len: len as nat, position: Position::Lone }),
    {
        PartEntry { value, len, position: Position::Lone }
    }
}

/// The texts of a list of strings.
pub open spec fn texts(v: Seq<String>) -> Seq<Seq<char>> {
    Seq::new(v.len(), |i: int| v[i]@)
}

/// The views of a list of part entries.
pub open spec fn part_views(v: Seq<PartEntry>) -> Seq<PartView> {
    Seq::new(v.len(), |i: int| v[i]@)
}

/// A text cut at every occurrence of `sep`. The pieces hold no `sep`, and
/// there is one more piece than there are separators: the empty text gives
/// one empty piece.
pub open spec fn split_text(s: Seq<char>, sep: char) -> Seq<Seq<char>>
    decreases s.len(),
{
    if s.len() == 0 {
        seq![Seq::<char>::empty()]
    } else {
        let p = split_text(s.drop_last(), sep);
        if s.last() == sep {
            p.push(Seq::<char>::empty())
        } else {
            p.drop_last().push(p.last().push(s.last()))
        }
    }
}

/// A split text has one piece more than the text has separators.
pub proof fn lemma_split_len(s: Seq<char>, sep: char)
    ensures
        split_text(s, sep).len() == 1 + s.filter(|c: char| c == sep).len(),
    decreases s.len(),
{
    let keep = |c: char| c == sep;
    reveal(Seq::filter);
    if s.len() == 0 {
    } else {
        lemma_split_len(s.drop_last(), sep);
        assert(s.filter(keep) == if keep(s.last()) {
            s.drop_last().filter(keep).push(s.last())
        } else {
            s.drop_last().filter(keep)
        });
    }
}

/// No piece of a split text holds the separator.
pub proof fn lemma_split_pieces_clean(s: Seq<char>, sep: char)
    ensures
        forall|k: int, i: int|
            0 <= k < split_text(s, sep).len() && 0 <= i < split_text(s, sep)[k].len()
                ==> #[trigger] split_text(s, sep)[k][i] != sep,
    decreases s.len(),
{
    if s.len() > 0 {
        lemma_split_pieces_clean(s.drop_last(), sep);
        lemma_split_len(s.drop_last(), sep);
        let p = split_text(s.drop_last(), sep);
        let q = split_text(s, sep);
        assert forall|k: int, i: int| 0 <= k < q.len() && 0 <= i < q[k].len() implies #[trigger] q[k][i]
            != sep by {
            if s.last() == sep {
                if k < p.len() {
                    assert(q[k][i] == p[k][i]);
                }
            } else if k < p.len() - 1 {
                assert(q[k][i] == p[k][i]);
            } else if i < p.last().len() {
                assert(q[k][i] == p[p.len() - 1][i]);
            }
        }
    }
}

/// The first `upto` pieces, one after the other, with the separator
/// between two.
pub open spec fn joined_with(pieces: Seq<Seq<char>>, sep: char, upto: int) -> Seq<char>
    decreases upto,
{
    if upto <= 0 {
        Seq::<char>::empty()
    } else if upto == 1 {
        pieces[0]
    } else {
        joined_with(pieces, sep, upto - 1) + seq![sep] + pieces[upto - 1]
    }
}

/// Joining does not look at the pieces beyond `upto`.
proof fn lemma_joined_prefix(a: Seq<Seq<char>>, b: Seq<Seq<char>>, sep: char, upto: int)
    requires
        upto <= a.len(),
        upto <= b.len(),
        forall|k: int| 0 <= k < upto ==> a[k] == b[k],
    ensures
        joined_with(a, sep, upto) == joined_with(b, sep, upto),
    decreases upto,
{
    if upto > 1 {
        lemma_joined_prefix(a, b, sep, upto - 1);
    }
}

/// The pieces of a split text, joined with the separator, are the text.
pub proof fn lemma_split_joins_back(s: Seq<char>, sep: char)
    ensures
        joined_with(split_text(s, sep), sep, split_text(s, sep).len() as int) == s,
    decreases s.len(),
{
    lemma_split_len(s, sep);
    if s.len() == 0 {
        assert(split_text(s, sep)[0] =~= s);
    } else {
        let r = s.drop_last();
        let p = split_text(r, sep);
        let q = split_text(s, sep);
        lemma_split_joins_back(r, sep);
        lemma_split_len(r, sep);
        let n = p.len() as int;
        if s.last() == sep {
            lemma_joined_prefix(p, q, sep, n);
            assert(joined_with(q, sep, n + 1) == joined_with(q, sep, n) + seq![sep] + q[n]);
            assert(r + seq![sep] + Seq::<char>::empty() =~= s);
        } else {
            lemma_joined_prefix(p, q, sep, n - 1);
            if n == 1 {
                assert(p[0] == r);
                assert(q[0] =~= s);
            } else {
                assert(joined_with(p, sep, n) == joined_with(p, sep, n - 1) + seq![sep] + p[n
                    - 1]);
                assert(joined_with(q, sep, n) == joined_with(q, sep, n - 1) + seq![sep] + q[n
                    - 1]);
                assert(joined_with(p, sep, n - 1) + seq![sep] + p[n - 1].push(s.last()) =~= (
                joined_with(p, sep, n - 1) + seq![sep] + p[n - 1]).push(s.last()));
                assert(r.push(s.last()) =~= s);
            }
        }
    }
}

/// Whether a text holds no separator.
pub open spec fn clean(piece: Seq<char>, sep: char) -> bool {
    forall|i: int| 0 <= i < piece.len() ==> piece[i] != sep
}

/// A text without separators, added to the end of another, only makes the
/// last piece longer.
proof fn lemma_split_extend(x: Seq<char>, b: Seq<char>, sep: char)
    requires
        clean(b, sep),
    ensures
        split_text(x + b, sep) == split_text(x, sep).drop_last().push(
            split_text(x, sep).last() + b,
        ),
    decreases b.len(),
{
    let p = split_text(x, sep);
    lemma_split_len(x, sep);
    if b.len() == 0 {
        assert(x + b =~= x);
        assert(p.last() + b =~= p.last());
        assert(p.drop_last().push(p.last()) =~= p);
    } else {
        let b0 = b.drop_last();
        lemma_split_extend(x, b0, sep);
        assert((x + b).drop_last() =~= x + b0);
        assert((x + b).last() == b[b.len() - 1]);
        let q = split_text(x + b0, sep);
        assert(q.drop_last() =~= p.drop_last());
        assert(q.last().push(b.last()) =~= p.last() + b);
    }
}

/// Pieces without separators, joined and split again, are the pieces.
pub proof fn lemma_join_splits_back(pieces: Seq<Seq<char>>, sep: char, upto: int)
    requires
        1 <= upto <= pieces.len(),
        forall|k: int| 0 <= k < upto ==> clean(#[trigger] pieces[k], sep),
    ensures
        split_text(joined_with(pieces, sep, upto), sep) == pieces.take(upto),
    decreases upto,
{
    let b = pieces[upto - 1];
    if upto == 1 {
        let e = Seq::<char>::empty();
        lemma_split_extend(e, b, sep);
        assert(e + b =~= b);
        assert(split_text(e, sep).drop_last().push(split_text(e, sep).last() + b) =~= pieces.take(
            1,
        ));
    } else {
        lemma_join_splits_back(pieces, sep, upto - 1);
        let j = joined_with(pieces, sep, upto - 1);
        let js = j + seq![sep];
        assert(js.drop_last() =~= j);
        assert(js.last() == sep);
        assert(split_text(js, sep) == split_text(j, sep).push(Seq::<char>::empty()));
        lemma_split_extend(js, b, sep);
        assert(split_text(js, sep).drop_last() =~= pieces.take(upto - 1));
        assert(Seq::<char>::empty() + b =~= b);
        assert(pieces.take(upto - 1).push(b) =~= pieces.take(upto));
    }
}

/// Cuts `s` at every `sep`.
pub fn split(s: &str, sep: char) -> (r: Vec<String>)
    ensures
        texts(r@) == split_text(s@, sep),
        r@.len() >= 1,
{
    let n = s.unicode_len();
    let mut done: Vec<String> = Vec::new();
    let mut start: usize = 0;
    let mut i: usize = 0;
    proof {
        assert(s@.take(0) =~= Seq::<char>::empty());
        assert(texts(done@).push(s@.subrange(0, 0)) =~= seq![Seq::<char>::empty()]);
    }
    while i < n
        invariant
            start <= i <= n,
            n == s@.len(),
            split_text(s@.take(i as int), sep) == texts(done@).push(
                s@.subrange(start as int, i as int),
            ),
        decreases n - i,
    {
        let c = s.get_char(i);
        let ghost before = texts(done@);
        let ghost piece_before = s@.subrange(start as int, i as int);
        proof {
            let t = s@.take(i + 1);
            assert(t.drop_last() =~= s@.take(i as int));
            assert(t.last() == c);
            assert(before.push(piece_before).drop_last() =~= before);
        }
        if c == sep {
            let piece = String::from_str(s.substring_char(start, i));
            done.push(piece);
            start = i + 1;
            proof {
                assert(texts(done@) =~= before.push(piece_before));
                assert(s@.subrange(start as int, i + 1) =~= Seq::<char>::empty());
            }
        } else {
            proof {
                assert(s@.subrange(start as int, i + 1) =~= piece_before.push(c));
            }
        }
        i += 1;
    }
    let ghost before = texts(done@);
    let piece = String::from_str(s.substring_char(start, n));
    done.push(piece);
    proof {
        assert(s@.take(n as int) =~= s@);
        assert(texts(done@) =~= before.push(s@.subrange(start as int, n as int)));
    }
    done
}

/// The pieces from `lo` up to `hi`, one after the other.
pub open spec fn concat_range(pieces: Seq<Seq<char>>, lo: int, hi: int) -> Seq<char>
    decreases hi - lo,
{
    if hi <= lo {
        Seq::<char>::empty()
    } else {
        concat_range(pieces, lo, hi - 1) + pieces[hi - 1]
    }
}

/// Two adjoining ranges of pieces concatenate to the range that spans both.
pub proof fn lemma_concat_adjoining(pieces: Seq<Seq<char>>, lo: int, mid: int, hi: int)
    requires
        lo <= mid <= hi,
    ensures
        concat_range(pieces, lo, mid) + concat_range(pieces, mid, hi) == concat_range(
            pieces,
            lo,
            hi,
        ),
    decreases hi - mid,
{
    if hi == mid {
        assert(concat_range(pieces, lo, mid) + Seq::<char>::empty() =~= concat_range(
            pieces,
            lo,
            mid,
        ));
    } else {
        lemma_concat_adjoining(pieces, lo, mid, hi - 1);
        assert(concat_range(pieces, lo, mid) + (concat_range(pieces, mid, hi - 1) + pieces[hi
            - 1]) =~= (concat_range(pieces, lo, mid) + concat_range(pieces, mid, hi - 1))
            + pieces[hi - 1]);
    }
}

/// Concatenates the strings from `lo` up to `hi`.
pub fn join_range(pieces: &Vec<String>, lo: usize, hi: usize) -> (r: String)
    requires
        lo <= hi <= pieces.len(),
    ensures
        r@ == concat_range(texts(pieces@), lo as int, hi as int),
{
    let mut r = String::new();
    let mut i: usize = lo;
    while i < hi
        invariant
            lo <= i <= hi <= pieces.len(),
            r@ == concat_range(texts(pieces@), lo as int, i as int),
        decreases hi - i,
    {
        r.append(pieces[i].as_str());
        i += 1;
    }
    r
}

/// Whether a gender code can be read: it is at most one character.
pub open spec fn gender_ok(code: Seq<char>) -> bool {
    code.len() <= 1
}

/// The gender that a readable code stands for.
pub open spec fn gender_of(code: Seq<char>) -> Gender {
    if code.len() == 1 && code[0] == 'm' {
        Gender::Male
    } else if code.len() == 1 && code[0] == 'f' {
        Gender::Female
    } else {
        Gender::Unknown
    }
}

/// Reads a gender code: `m`, `f`, and nothing or any other single
/// character for unknown. Longer codes cannot be read.
pub fn parse_gender(code: &str) -> (g: Option<Gender>)
    ensures
        g == if gender_ok(code@) {
            Some(gender_of(code@))
        } else {
            None
        },
{
    let n = code.unicode_len();
    if n > 1 {
        None
    } else if n == 0 {
        Some(Gender::Unknown)
    } else {
        let c = code.get_char(0);
        if c == 'm' {
            Some(Gender::Male)
        } else if c == 'f' {
            Some(Gender::Female)
        } else {
            Some(Gender::Unknown)
        }
    }
}

/// The two parts that a boundary after `f` syllables gives.
pub open spec fn split_pair(syllables: Seq<Seq<char>>, f: int) -> Seq<PartView> {
    seq![
        PartView { value: concat_range(syllables, 0, f), len: f as nat, position: Position::First },
        PartView {
            value: concat_range(syllables, f, syllables.len() as int),
            len: (syllables.len() - f) as nat,
            position: Position::Second,
        },
    ]
}

/// The pairs of every boundary from 1 up to, not including, `upto`, in order.
pub open spec fn enumerated_splits(syllables: Seq<Seq<char>>, upto: int) -> Seq<PartView>
    decreases upto,
{
    if upto <= 1 {
        Seq::<PartView>::empty()
    } else {
        enumerated_splits(syllables, upto - 1) + split_pair(syllables, upto - 1)
    }
}

/// The hypotheses for a name without a declared boundary: the name itself
/// where it has one syllable, else both parts of every boundary.
pub open spec fn hypotheses(syllables: Seq<Seq<char>>) -> Seq<PartView> {
    if syllables.len() == 1 {
        seq![PartView { value: syllables[0], len: 1, position: Position::Lone }]
    } else {
        enumerated_splits(syllables, syllables.len() as int)
    }
}

/// A name with `n > 1` syllables and no declared boundary has `2 (n - 1)`
/// hypotheses; in general the boundaries below `upto` give `2 (upto - 1)`.
pub proof fn lemma_enumerated_len(syllables: Seq<Seq<char>>, upto: int)
    requires
        upto >= 1,
    ensures
        enumerated_splits(syllables, upto).len() == 2 * (upto - 1),
    decreases upto,
{
    if upto > 1 {
        lemma_enumerated_len(syllables, upto - 1);
    }
}

/// A name of the corpus, segmented.
#[derive(Clone, Debug, PartialEq, Eq)]
pub struct Name {
    pub name: String,
    pub clean_name: String,
    pub syllables: Vec<String>,
    /// The two parts of the declared boundary, or empty.
    pub guaranteed_parts: Vec<PartEntry>,
    /// The hypotheses, where no boundary is declared, or empty.
    pub possible_parts: Vec<PartEntry>,
    pub gender: Gender,
}

pub ghost struct NameView {
    pub name: Seq<char>,
    pub clean_name: Seq<char>,
    pub syllables: Seq<Seq<char>>,
    pub guaranteed: Seq<PartView>,
    pub possible: Seq<PartView>,
    pub gender: Gender,
}

impl View for Name {
    type V = NameView;

    open spec fn view(&self) -> NameView {
        NameView {
            name: self.name@,
            clean_name: self.clean_name@,
            syllables: texts(self.syllables@),
            guaranteed: part_views(self.guaranteed_parts@),
            possible: part_views(self.possible_parts@),
            gender: self.gender,
        }
    }
}

/// Whether a declared boundary lies strictly inside a name of `n` syllables.
pub open spec fn boundary_ok(first_part: Option<usize>, n: nat) -> bool {
    first_part matches Some(f) ==> 0 < f < n
}

/// The segmented name that a record stands for, where its boundary is in
/// range.
pub open spec fn segmented(
    name: Seq<char>,
    clean_name: Seq<char>,
    syllables: Seq<char>,
    first_part: Option<usize>,
    gender: Seq<char>,
) -> NameView {
    let pieces = split_text(syllables, '.');
    NameView {
        name,
        clean_name,
        syllables: pieces,
        guaranteed: match first_part {
            Some(f) => split_pair(pieces, f as int),
            None => Seq::<PartView>::empty(),
        },
        possible: match first_part {
            Some(_) => Seq::<PartView>::empty(),
            None => hypotheses(pieces),
        },
        gender: gender_of(gender),
    }
}

/// Whether a record's boundary, if it declares one, is in range, and its
/// gender code can be read.
pub open spec fn record_ok(record: &NameRecord) -> bool {
    boundary_ok(record.first_part, split_text(record.syllables@, '.').len()) && gender_ok(
        record.gender@,
    )
}

/// What is wrong with a record that is not in order: its boundary, or
/// else its gender code.
pub open spec fn record_error(record: &NameRecord) -> DataError {
    if boundary_ok(record.first_part, split_text(record.syllables@, '.').len()) {
        DataError::UnreadableGender
    } else {
        DataError::BoundaryOutOfRange
    }
}

/// The segmented name that a record with a boundary in range stands for.
pub open spec fn record_name(record: &NameRecord) -> NameView {
    segmented(
        record.name@,
        record.clean_name@,
        record.syllables@,
        record.first_part,
        record.gender@,
    )
}

impl NameView {
    /// A name has at least one syllable, and either the two parts of a
    /// boundary inside it and no hypotheses, or no such parts and all its
    /// hypotheses.
    pub open spec fn wf(self) -> bool {
        &&& self.syllables.len() >= 1
        &&& self.guaranteed.len() == 0 || self.possible.len() == 0
        &&& self.guaranteed.len() == 0 ==> self.possible == hypotheses(self.syllables)
        &&& self.guaranteed.len() != 0 ==> {
            &&& 0 < self.guaranteed[0].len < self.syllables.len()
            &&& self.guaranteed == split_pair(self.syllables, self.guaranteed[0].len as int)
        }
    }
}

impl Name {
    pub open spec fn wf(&self) -> bool {
        self@.wf()
    }

    /// Segments one record. A declared boundary `f` must leave syllables on
    /// both sides, and the gender code must be readable; the record is
    /// rejected otherwise.
    pub fn from_record(record: NameRecord) -> (r: Result<Name, DataError>)
        ensures
            r is Ok <==> record_ok(&record),
            r matches Err(e) ==> e == record_error(&record),
            r matches Ok(n) ==> n.wf() && n@ == record_name(&record),
    {
        Name::segment(&record)
    }

    /// Segments one record that is only borrowed.
    pub fn segment(record: &NameRecord) -> (r: Result<Name, DataError>)
        ensures
            r is Ok <==> record_ok(record),
            r matches Err(e) ==> e == record_error(record),
            r matches Ok(n) ==> n.wf() && n@ == record_name(record),
    {
        let syllables = split(record.syllables.as_str(), '.');
        let n = syllables.len();
        let in_range = match record.first_part {
            Some(f) => 0 < f && f < n,
            None => true,
        };
        if !in_range {
            return Err(DataError::BoundaryOutOfRange);
        }
        let gender = match parse_gender(record.gender.as_str()) {
            Some(g) => g,
            None => {
                return Err(DataError::UnreadableGender);
            },
        };
        let ghost pieces = texts(syllables@);
        let mut guaranteed_parts: Vec<PartEntry> = Vec::new();
        let mut possible_parts: Vec<PartEntry> = Vec::new();
        match record.first_part {
            Some(f) => {
                guaranteed_parts.push(PartEntry::first(join_range(&syllables, 0, f), f));
                guaranteed_parts.push(PartEntry::second(join_range(&syllables, f, n), n - f));
                proof {
                    assert(part_views(guaranteed_parts@) =~= split_pair(pieces, f as int));
                    assert(part_views(possible_parts@) =~= Seq::<PartView>::empty());
                }
            },
            None => {
                if n == 1 {
                    possible_parts.push(PartEntry::lone(syllables[0].clone(), 1));
                    proof {
                        assert(part_views(possible_parts@) =~= hypotheses(pieces));
                    }
                } else {
                    let mut f: usize = 1;
                    proof {
                        assert(part_views(possible_parts@) =~= enumerated_splits(pieces, 1));
                    }
                    while f < n
                        invariant
                            1 <= f <= n,
                            n == syllables.len(),
                            n > 1,
                            pieces == texts(syllables@),
                            part_views(possible_parts@) == enumerated_splits(pieces, f as int),
                        decreases n - f,
                    {
                        let ghost before = part_views(possible_parts@);
                        possible_parts.push(PartEntry::first(join_range(&syllables, 0, f), f));
                        possible_parts.push(
                            PartEntry::second(join_range(&syllables, f, n), n - f),
                        );
                        proof {
                            assert(part_views(possible_parts@) =~= before + split_pair(
                                pieces,
                                f as int,
                            ));
                        }
                        f += 1;
                    }
                }
                proof {
                    assert(part_views(guaranteed_parts@) =~= Seq::<PartView>::empty());
                }
            },
        }
        let r = Name {
            name: record.name.clone(),
            clean_name: record.clean_name.clone(),
            syllables,
            guaranteed_parts,
            possible_parts,
            gender,
        };
        proof {
            if record.first_part is None && n > 1 {
                lemma_enumerated_len(pieces, n as int);
            }
        }
        Ok(r)
    }
}

/// A name of one syllable and no declared boundary has the one hypothesis
/// that it stands alone, with length 1, and no guaranteed parts.
pub proof fn lemma_single_syllable(name: NameView)
    requires
        name.wf(),
        name.syllables.len() == 1,
    ensures
        name.guaranteed.len() == 0,
        name.possible == seq![
            PartView { value: name.syllables[0], len: 1, position: Position::Lone },
        ],
{
}

/// A name with a declared boundary has exactly two guaranteed parts, whose
/// values one after the other are the whole name, and no hypotheses.
pub proof fn lemma_guaranteed_rebuilds(name: NameView)
    requires
        name.wf(),
        name.guaranteed.len() != 0,
    ensures
        name.guaranteed.len() == 2,
        name.possible.len() == 0,
        name.guaranteed[0].position == Position::First,
        name.guaranteed[1].position == Position::Second,
        name.guaranteed[0].len + name.guaranteed[1].len == name.syllables.len(),
        name.guaranteed[0].value + name.guaranteed[1].value == concat_range(
            name.syllables,
            0,
            name.syllables.len() as int,
        ),
{
    lemma_concat_adjoining(
        name.syllables,
        0,
        name.guaranteed[0].len as int,
        name.syllables.len() as int,
    );
}

/// A name with more than one syllable and no declared boundary has two
/// hypotheses for each of its `n - 1` boundaries.
pub proof fn lemma_hypothesis_count(name: NameView)
    requires
        name.wf(),
        name.guaranteed.len() == 0,
        name.syllables.len() > 1,
    ensures
        name.possible.len() == 2 * (name.syllables.len() - 1),
{
    lemma_enumerated_len(name.syllables, name.syllables.len() as int);
}

/// The hypotheses of a name without a declared boundary share a total
/// credit of exactly two, however many syllables the name has: each
/// carries its share over their number `h`, and the shares add up to
/// `2 h`.
pub proof fn lemma_hypotheses_share_two(name: NameView)
    requires
        name.wf(),
        name.guaranteed.len() == 0,
    ensures
        name.possible.len() >= 1,
        total_share(name.possible) == 2 * name.possible.len(),
{
    lemma_total_share(name.possible);
    if name.syllables.len() > 1 {
        lemma_enumerated_len(name.syllables, name.syllables.len() as int);
    }
}

/// The views of a list of names.
pub open spec fn name_views(v: Seq<Name>) -> Seq<NameView> {
    Seq::new(v.len(), |i: int| v[i]@)
}

/// The table after the first `upto` syllables of the name at index `idx`
/// are recorded in `t`. A syllable is a segment of length one.
pub open spec fn syllables_tallied(
    t: Seq<TallyView>,
    name: NameView,
    idx: usize,
    upto: int,
) -> Seq<TallyView>
    decreases upto,
{
    if upto <= 0 {
        t
    } else {
        deposited(
            syllables_tallied(t, name, idx, upto - 1),
            name.syllables[upto - 1],
            1,
            role_at(upto - 1, name.syllables.len() as int),
            Contribution { name: idx, num: 1, den: 1 },
            name.gender,
        )
    }
}

/// The syllable table of the first `upto` names: one tally for each
/// distinct syllable, in the order in which they are first met.
pub open spec fn syllable_table(names: Seq<NameView>, upto: int) -> Seq<TallyView>
    decreases upto,
{
    if upto <= 0 {
        Seq::<TallyView>::empty()
    } else {
        syllables_tallied(
            syllable_table(names, upto - 1),
            names[upto - 1],
            (upto - 1) as usize,
            names[upto - 1].syllables.len() as int,
        )
    }
}

/// The table after the first `upto` entries of `parts` are recorded in
/// `t`, each with its share of credit over `h`.
pub open spec fn parts_tallied(
    t: Seq<TallyView>,
    parts: Seq<PartView>,
    h: u64,
    idx: usize,
    g: Gender,
    upto: int,
) -> Seq<TallyView>
    decreases upto,
{
    if upto <= 0 {
        t
    } else {
        deposited(
            parts_tallied(t, parts, h, idx, g, upto - 1),
            parts[upto - 1].value,
            parts[upto - 1].len,
            part_role(parts[upto - 1].position),
            Contribution { name: idx, num: part_share(parts[upto - 1].position), den: h },
            g,
        )
    }
}

/// The part table of the first `upto` names: one tally for each distinct
/// pair of value and length. Guaranteed parts carry their share over two,
/// which is one whole credit for each half; hypotheses carry it over their
/// number.
pub open spec fn part_table(names: Seq<NameView>, upto: int) -> Seq<TallyView>
    decreases upto,
{
    if upto <= 0 {
        Seq::<TallyView>::empty()
    } else {
        let n = names[upto - 1];
        let t = parts_tallied(
            part_table(names, upto - 1),
            n.guaranteed,
            2,
            (upto - 1) as usize,
            n.gender,
            n.guaranteed.len() as int,
        );
        parts_tallied(
            t,
            n.possible,
            n.possible.len() as u64,
            (upto - 1) as usize,
            n.gender,
            n.possible.len() as int,
        )
    }
}

/// Recording syllables keeps one tally for each syllable.
proof fn lemma_syllables_tallied_distinct(
    t: Seq<TallyView>,
    name: NameView,
    idx: usize,
    upto: int,
)
    requires
        distinct_keys(t),
    ensures
        distinct_keys(syllables_tallied(t, name, idx, upto)),
    decreases upto,
{
    if upto > 0 {
        lemma_syllables_tallied_distinct(t, name, idx, upto - 1);
        lemma_deposited_distinct(
            syllables_tallied(t, name, idx, upto - 1),
            name.syllables[upto - 1],
            1,
            role_at(upto - 1, name.syllables.len() as int),
            Contribution { name: idx, num: 1, den: 1 },
            name.gender,
        );
    }
}

/// Recording part entries keeps one tally for each pair of value and
/// length.
proof fn lemma_parts_tallied_distinct(
    t: Seq<TallyView>,
    parts: Seq<PartView>,
    h: u64,
    idx: usize,
    g: Gender,
    upto: int,
)
    requires
        distinct_keys(t),
    ensures
        distinct_keys(parts_tallied(t, parts, h, idx, g, upto)),
    decreases upto,
{
    if upto > 0 {
        lemma_parts_tallied_distinct(t, parts, h, idx, g, upto - 1);
        lemma_deposited_distinct(
            parts_tallied(t, parts, h, idx, g, upto - 1),
            parts[upto - 1].value,
            parts[upto - 1].len,
            part_role(parts[upto - 1].position),
            Contribution { name: idx, num: part_share(parts[upto - 1].position), den: h },
            g,
        );
    }
}

/// Both tables hold one tally for each distinct segment: no syllable, and
/// no pair of part value and length, has two rows.
pub proof fn lemma_tables_distinct(names: Seq<NameView>, upto: int)
    ensures
        distinct_keys(syllable_table(names, upto)),
        distinct_keys(part_table(names, upto)),
    decreases upto,
{
    if upto > 0 {
        lemma_tables_distinct(names, upto - 1);
        let n = names[upto - 1];
        lemma_syllables_tallied_distinct(
            syllable_table(names, upto - 1),
            n,
            (upto - 1) as usize,
            n.syllables.len() as int,
        );
        lemma_parts_tallied_distinct(
            part_table(names, upto - 1),
            n.guaranteed,
            2,
            (upto - 1) as usize,
            n.gender,
            n.guaranteed.len() as int,
        );
        lemma_parts_tallied_distinct(
            parts_tallied(
                part_table(names, upto - 1),
                n.guaranteed,
                2,
                (upto - 1) as usize,
                n.gender,
                n.guaranteed.len() as int,
            ),
            n.possible,
            n.possible.len() as u64,
            (upto - 1) as usize,
            n.gender,
            n.possible.len() as int,
        );
    }
}

/// The syllables of the first `upto` names, counted with repetition.
pub open spec fn syllable_count(names: Seq<NameView>, upto: int) -> nat
    decreases upto,
{
    if upto <= 0 {
        0
    } else {
        syllable_count(names, upto - 1) + names[upto - 1].syllables.len()
    }
}

/// The roles of the first `upto` part entries: one for each half of a
/// split, two for an entry that stands alone.
pub open spec fn role_total(parts: Seq<PartView>, upto: int) -> nat
    decreases upto,
{
    if upto <= 0 {
        0
    } else {
        role_total(parts, upto - 1) + role_count(part_role(parts[upto - 1].position))
    }
}

/// The roles of all part entries of the first `upto` names.
pub open spec fn part_role_count(names: Seq<NameView>, upto: int) -> nat
    decreases upto,
{
    if upto <= 0 {
        0
    } else {
        part_role_count(names, upto - 1) + role_total(
            names[upto - 1].guaranteed,
            names[upto - 1].guaranteed.len() as int,
        ) + role_total(names[upto - 1].possible, names[upto - 1].possible.len() as int)
    }
}

/// Recording the first `upto` syllables of a name adds `upto` occurrences.
proof fn lemma_syllables_tallied_occurrences(
    t: Seq<TallyView>,
    name: NameView,
    idx: usize,
    upto: int,
)
    requires
        0 <= upto,
    ensures
        total_occurrences(syllables_tallied(t, name, idx, upto)) == total_occurrences(t) + upto,
    decreases upto,
{
    if upto > 0 {
        lemma_syllables_tallied_occurrences(t, name, idx, upto - 1);
        lemma_deposited_occurrences(
            syllables_tallied(t, name, idx, upto - 1),
            name.syllables[upto - 1],
            1,
            role_at(upto - 1, name.syllables.len() as int),
            Contribution { name: idx, num: 1, den: 1 },
            name.gender,
        );
    }
}

/// Recording the first `upto` part entries adds one occurrence for each of
/// their roles.
proof fn lemma_parts_tallied_occurrences(
    t: Seq<TallyView>,
    parts: Seq<PartView>,
    h: u64,
    idx: usize,
    g: Gender,
    upto: int,
)
    ensures
        total_occurrences(parts_tallied(t, parts, h, idx, g, upto)) == total_occurrences(t)
            + role_total(parts, upto),
    decreases upto,
{
    if upto > 0 {
        lemma_parts_tallied_occurrences(t, parts, h, idx, g, upto - 1);
        lemma_deposited_occurrences(
            parts_tallied(t, parts, h, idx, g, upto - 1),
            parts[upto - 1].value,
            parts[upto - 1].len,
            part_role(parts[upto - 1].position),
            Contribution { name: idx, num: part_share(parts[upto - 1].position), den: h },
            g,
        );
    }
}

/// Every occurrence is counted once: the syllable table holds as many
/// occurrences as the names have syllables, and the part table as many as
/// the part entries have roles.
pub proof fn lemma_tables_count_all(names: Seq<NameView>, upto: int)
    ensures
        total_occurrences(syllable_table(names, upto)) == syllable_count(names, upto),
        total_occurrences(part_table(names, upto)) == part_role_count(names, upto),
    decreases upto,
{
    if upto > 0 {
        lemma_tables_count_all(names, upto - 1);
        let n = names[upto - 1];
        lemma_syllables_tallied_occurrences(
            syllable_table(names, upto - 1),
            n,
            (upto - 1) as usize,
            n.syllables.len() as int,
        );
        lemma_parts_tallied_occurrences(
            part_table(names, upto - 1),
            n.guaranteed,
            2,
            (upto - 1) as usize,
            n.gender,
            n.guaranteed.len() as int,
        );
        lemma_parts_tallied_occurrences(
            parts_tallied(
                part_table(names, upto - 1),
                n.guaranteed,
                2,
                (upto - 1) as usize,
                n.gender,
                n.guaranteed.len() as int,
            ),
            n.possible,
            n.possible.len() as u64,
            (upto - 1) as usize,
            n.gender,
            n.possible.len() as int,
        );
    }
}

/// Builds the syllable table of a corpus.
pub fn tally_syllables(names: &Vec<Name>) -> (table: Vec<SegmentTally>)
    ensures
        tally_views(table@) == syllable_table(name_views(names@), names.len() as int),
        table_wf(tally_views(table@), names.len() as nat),
{
    let mut table: Vec<SegmentTally> = Vec::new();
    let mut i: usize = 0;
    assert(tally_views(table@) =~= Seq::<TallyView>::empty());
    while i < names.len()
        invariant
            i <= names.len(),
            tally_views(table@) == syllable_table(name_views(names@), i as int),
            table_wf(tally_views(table@), names.len() as nat),
        decreases names.len() - i,
    {
        let name = &names[i];
        let n = name.syllables.len();
        let mut j: usize = 0;
        while j < n
            invariant
                j <= n,
                i < names.len(),
                n == name.syllables.len(),
                name@ == name_views(names@)[i as int],
                tally_views(table@) == syllables_tallied(
                    syllable_table(name_views(names@), i as int),
                    name@,
                    i,
                    j as int,
                ),
                table_wf(tally_views(table@), names.len() as nat),
            decreases n - j,
        {
            let role = if j == 0 {
                Role::Start
            } else if j == n - 1 {
                Role::End
            } else {
                Role::Middle
            };
            deposit(
                &mut table,
                &name.syllables[j],
                1,
                role,
                Contribution { name: i, num: 1, den: 1 },
                name.gender,
                Ghost(names.len() as nat),
            );
            j += 1;
        }
        i += 1;
    }
    table
}

/// Records every entry of `parts`, which belong to the name at `idx`.
fn tally_part_list(
    table: &mut Vec<SegmentTally>,
    parts: &Vec<PartEntry>,
    h: u64,
    idx: usize,
    g: Gender,
    Ghost(count): Ghost<nat>,
)
    requires
        table_wf(tally_views(old(table)@), count),
        idx < count,
        h >= 1,
    ensures
        tally_views(final(table)@) == parts_tallied(
            tally_views(old(table)@),
            part_views(parts@),
            h,
            idx,
            g,
            parts.len() as int,
        ),
        table_wf(tally_views(final(table)@), count),
{
    let ghost before = tally_views(table@);
    let mut j: usize = 0;
    while j < parts.len()
        invariant
            j <= parts.len(),
            idx < count,
            h >= 1,
            tally_views(table@) == parts_tallied(before, part_views(parts@), h, idx, g, j as int),
            table_wf(tally_views(table@), count),
        decreases parts.len() - j,
    {
        let p = &parts[j];
        assert(part_views(parts@)[j as int] == p@);
        deposit(
            table,
            &p.value,
            p.len,
            role_of(p.position),
            Contribution { name: idx, num: share_of(p.position), den: h },
            g,
            Ghost(count),
        );
        j += 1;
    }
}

/// Builds the part table of a corpus.
pub fn tally_parts(names: &Vec<Name>) -> (table: Vec<SegmentTally>)
    ensures
        tally_views(table@) == part_table(name_views(names@), names.len() as int),
        table_wf(tally_views(table@), names.len() as nat),
{
    let mut table: Vec<SegmentTally> = Vec::new();
    let mut i: usize = 0;
    assert(tally_views(table@) =~= Seq::<TallyView>::empty());
    while i < names.len()
        invariant
            i <= names.len(),
            tally_views(table@) == part_table(name_views(names@), i as int),
            table_wf(tally_views(table@), names.len() as nat),
        decreases names.len() - i,
    {
        let name = &names[i];
        assert(name@ == name_views(names@)[i as int]);
        tally_part_list(
            &mut table,
            &name.guaranteed_parts,
            2,
            i,
            name.gender,
            Ghost(names.len() as nat),
        );
        if name.possible_parts.len() > 0 {
            tally_part_list(
                &mut table,
                &name.possible_parts,
                name.possible_parts.len() as u64,
                i,
                name.gender,
                Ghost(names.len() as nat),
            );
        }
        i += 1;
    }
    table
}

/// How many of the first `upto` names have gender `g`.
pub open spec fn gender_count(names: Seq<NameView>, g: Gender, upto: int) -> nat
    decreases upto,
{
    if upto <= 0 {
        0
    } else {
        gender_count(names, g, upto - 1) + if names[upto - 1].gender == g {
            1nat
        } else {
            0nat
        }
    }
}

/// Counts the names of gender `g`.
pub fn count_gender(names: &Vec<Name>, g: Gender) -> (r: usize)
    ensures
        r == gender_count(name_views(names@), g, names.len() as int),
        r <= names.len(),
{
    let mut r: usize = 0;
    let mut i: usize = 0;
    while i < names.len()
        invariant
            i <= names.len(),
            r <= i,
            r == gender_count(name_views(names@), g, i as int),
        decreases names.len() - i,
    {
        if names[i].gender == g {
            r += 1;
        }
        i += 1;
    }
    r
}

#[derive(Clone, Copy, Debug, PartialEq, Eq, Structural)]
pub enum SegmentKind {
    Syllable,
    Part,
    /// The separator between the two parts of a compound name.
    Apostrophe,
}

/// One row of an output table. Scores and the gender ratio are in fixed
/// point.
#[derive(Clone, Debug, PartialEq, Eq)]
pub struct OutputRecord {
    pub segment_kind: SegmentKind,
    pub str: String,
    pub overall_val: u64,
    pub start_val: u64,
    pub middle_val: u64,
    pub end_val: u64,
    /// The names that the segment comes from, separated by semicolons.
    pub names: String,
    pub gender_ratio: u64,
}

pub ghost struct RecordView {
    pub kind: SegmentKind,
    pub text: Seq<char>,
    pub overall: nat,
    pub start: nat,
    pub middle: nat,
    pub end: nat,
    pub names: Seq<char>,
    pub gender_ratio: nat,
}

impl View for OutputRecord {
    type V = RecordView;

    open spec fn view(&self) -> RecordView {
        RecordView {
            kind: self.segment_kind,
            text: self.str@,
            overall: self.overall_val as nat,
            start: self.start_val as nat,
            middle: self.middle_val as nat,
            end: self.end_val as nat,
            names: self.names@,
            gender_ratio: self.gender_ratio as nat,
        }
    }
}

/// The views of a list of records.
pub open spec fn record_views(v: Seq<OutputRecord>) -> Seq<RecordView> {
    Seq::new(v.len(), |i: int| v[i]@)
}

/// The names that a list of credits comes from, one for each credit.
pub open spec fn contributor_names(list: Seq<Contribution>, names: Seq<NameView>) -> Seq<
    Seq<char>,
> {
    Seq::new(list.len(), |k: int| names[list[k].name as int].name)
}

/// The names that a list of credits comes from, with a semicolon between
/// two.
pub open spec fn joined_names(list: Seq<Contribution>, names: Seq<NameView>) -> Seq<char> {
    joined_with(contributor_names(list, names), ';', list.len() as int)
}

/// The output row of one tally: its scores by role and their sum, the
/// names behind its start, end and middle credits in this order, and its
/// gender ratio in the corpus `names`.
pub open spec fn record_of(t: TallyView, kind: SegmentKind, names: Seq<NameView>) -> RecordView {
    RecordView {
        kind,
        text: t.key,
        overall: score(t.start) + score(t.end) + score(t.middle),
        start: score(t.start),
        middle: score(t.middle),
        end: score(t.end),
        names: joined_names(t.start + t.end + t.middle, names),
        gender_ratio: ratio_units(
            t.male,
            t.female,
            gender_count(names, Gender::Male, names.len() as int),
            gender_count(names, Gender::Female, names.len() as int),
        ),
    }
}

/// The output rows of a table, one for each tally, in the table's order.
pub open spec fn records_of(
    t: Seq<TallyView>,
    kind: SegmentKind,
    names: Seq<NameView>,
) -> Seq<RecordView> {
    Seq::new(t.len(), |k: int| record_of(t[k], kind, names))
}

/// Every row of an output table has a gender ratio between zero and one.
pub proof fn lemma_record_ratio_in_range(
    t: Seq<TallyView>,
    kind: SegmentKind,
    names: Seq<NameView>,
    k: int,
)
    requires
        0 <= k < t.len(),
    ensures
        0 <= records_of(t, kind, names)[k].gender_ratio <= UNIT,
{
    lemma_ratio_in_range(
        t[k].male,
        t[k].female,
        gender_count(names, Gender::Male, names.len() as int),
        gender_count(names, Gender::Female, names.len() as int),
    );
}

/// Adds the credits of `src` to the end of `dst`.
fn append_credits(dst: &mut Vec<Contribution>, src: &Vec<Contribution>)
    ensures
        final(dst)@ == old(dst)@ + src@,
{
    let ghost before = dst@;
    let mut i: usize = 0;
    assert(dst@ =~= before + src@.take(0));
    while i < src.len()
        invariant
            i <= src.len(),
            dst@ == before + src@.take(i as int),
        decreases src.len() - i,
    {
        dst.push(src[i]);
        assert(dst@ =~= before + src@.take(i + 1));
        i += 1;
    }
    assert(src@.take(src.len() as int) =~= src@);
}

/// Joins the names behind a list of credits.
fn join_names(list: &Vec<Contribution>, names: &Vec<Name>) -> (r: String)
    requires
        credits_ok(list@, names.len() as nat),
    ensures
        r@ == joined_names(list@, name_views(names@)),
{
    let ghost pieces = contributor_names(list@, name_views(names@));
    let mut text = String::new();
    let mut i: usize = 0;
    while i < list.len()
        invariant
            i <= list.len(),
            credits_ok(list@, names.len() as nat),
            pieces == contributor_names(list@, name_views(names@)),
            text@ == joined_with(pieces, ';', i as int),
        decreases list.len() - i,
    {
        let c = list[i];
        let ghost before = text@;
        proof {
            assert(pieces[i as int] == names[c.name as int].name@);
        }
        if i > 0 {
            proof {
                reveal_strlit(";");
                assert(";"@ =~= seq![';']);
            }
            text.append(";");
        } else {
            assert(before + names[c.name as int].name@ =~= names[c.name as int].name@);
        }
        text.append(names[c.name].name.as_str());
        i += 1;
    }
    text
}

/// The male names of a corpus.
pub open spec fn males_of(names: Seq<NameView>) -> nat {
    gender_count(names, Gender::Male, names.len() as int)
}

/// The female names of a corpus.
pub open spec fn females_of(names: Seq<NameView>) -> nat {
    gender_count(names, Gender::Female, names.len() as int)
}

/// Turns a table into its output rows; none where a score of some tally
/// does not fit.
pub fn emit_records(table: &Vec<SegmentTally>, kind: SegmentKind, names: &Vec<Name>) -> (r: Option<
    Vec<OutputRecord>,
>)
    requires
        table_wf(tally_views(table@), names.len() as nat),
    ensures
        r is Some <==> table_fits(
            tally_views(table@),
            males_of(name_views(names@)),
            females_of(name_views(names@)),
        ),
        r matches Some(rows) ==> record_views(rows@) == records_of(
            tally_views(table@),
            kind,
            name_views(names@),
        ),
{
    let males = count_gender(names, Gender::Male);
    let females = count_gender(names, Gender::Female);
    let mut out: Vec<OutputRecord> = Vec::new();
    let mut k: usize = 0;
    assert(name_views(names@).len() == names.len());
    while k < table.len()
        invariant
            k <= table.len(),
            out.len() == k,
            males == males_of(name_views(names@)),
            females == females_of(name_views(names@)),
            table_wf(tally_views(table@), names.len() as nat),
            forall|j: int|
                0 <= j < k ==> (#[trigger] tally_views(table@)[j]).fits(
                    males as nat,
                    females as nat,
                ),
            forall|j: int|
                0 <= j < k ==> (#[trigger] out@[j])@ == record_of(
                    tally_views(table@)[j],
                    kind,
                    name_views(names@),
                ),
        decreases table.len() - k,
    {
        let t = &table[k];
        proof {
            assert(tally_views(table@)[k as int] == t@);
            assert(t@.wf(names.len() as nat));
        }
        let start = total_score(&t.start);
        let end = total_score(&t.end);
        let middle = total_score(&t.middle);
        let la = t.start.len();
        let lb = t.end.len();
        let lc = t.middle.len();
        proof {
            lemma_score_bound(t@.start);
            lemma_score_bound(t@.end);
            lemma_score_bound(t@.middle);
            assert(2 * UNIT * la <= 2_000_000 * 0xffff_ffff_ffff_ffff && 2 * UNIT * lb <= 2_000_000
                * 0xffff_ffff_ffff_ffff && 2 * UNIT * lc <= 2_000_000 * 0xffff_ffff_ffff_ffff)
                by (nonlinear_arith)
                requires
                    UNIT == 1_000_000,
                    la <= 0xffff_ffff_ffff_ffff,
                    lb <= 0xffff_ffff_ffff_ffff,
                    lc <= 0xffff_ffff_ffff_ffff,
            ;
        }
        let overall: u128 = start + end + middle;
        if overall > u64::MAX as u128 {
            assert(!tally_views(table@)[k as int].fits(males as nat, females as nat));
            return None;
        }
        let ratio = match gender_ratio(t.male, t.female, males, females) {
            Some(v) => v,
            None => {
                assert(!tally_views(table@)[k as int].fits(males as nat, females as nat));
                return None;
            },
        };
        let mut all: Vec<Contribution> = Vec::new();
        append_credits(&mut all, &t.start);
        append_credits(&mut all, &t.end);
        append_credits(&mut all, &t.middle);
        proof {
            assert(all@ =~= t@.start + t@.end + t@.middle);
        }
        let record = OutputRecord {
            segment_kind: kind,
            str: t.key.clone(),
            overall_val: overall as u64,
            start_val: start as u64,
            middle_val: middle as u64,
            end_val: end as u64,
            names: join_names(&all, names),
            gender_ratio: ratio,
        };
        out.push(record);
        k += 1;
    }
    assert(record_views(out@) =~= records_of(tally_views(table@), kind, name_views(names@)));
    Some(out)
}

/// A list of bounded credits scores at most two for each credit.
proof fn lemma_score_bound(list: Seq<Contribution>)
    requires
        forall|i: int| 0 <= i < list.len() ==> (#[trigger] list[i]).num <= 2 && list[i].den >= 1,
    ensures
        score(list) <= 2 * UNIT * list.len(),
    decreases list.len(),
{
    if list.len() > 0 {
        lemma_score_bound(list.drop_last());
        let c = list.last();
        assert((c.num as nat * UNIT as nat) / (c.den as nat) <= 2 * UNIT) by (nonlinear_arith)
            requires
                c.num <= 2,
                c.den >= 1,
                UNIT == 1_000_000,
        ;
        assert(2 * UNIT * (list.len() - 1) + 2 * UNIT == 2 * UNIT * list.len()) by (nonlinear_arith);
    }
}

/// No part occurs in the middle of a name.
pub open spec fn no_middle(t: Seq<TallyView>) -> bool {
    forall|k: int| 0 <= k < t.len() ==> (#[trigger] t[k]).middle.len() == 0
}

proof fn lemma_parts_tallied_no_middle(
    t: Seq<TallyView>,
    parts: Seq<PartView>,
    h: u64,
    idx: usize,
    g: Gender,
    upto: int,
)
    requires
        no_middle(t),
    ensures
        no_middle(parts_tallied(t, parts, h, idx, g, upto)),
    decreases upto,
{
    if upto > 0 {
        lemma_parts_tallied_no_middle(t, parts, h, idx, g, upto - 1);
        let before = parts_tallied(t, parts, h, idx, g, upto - 1);
        let p = parts[upto - 1];
        lemma_find_from(before, p.value, p.len, 0);
        let after = parts_tallied(t, parts, h, idx, g, upto);
        let at = find_from(before, p.value, p.len, 0);
        assert forall|k: int| 0 <= k < after.len() implies (#[trigger] after[k]).middle.len()
            == 0 by {
            if k != at {
                assert(after[k] == before[k]);
            }
        }
    }
}

/// The part table has no middle credits.
pub proof fn lemma_part_table_no_middle(names: Seq<NameView>, upto: int)
    ensures
        no_middle(part_table(names, upto)),
    decreases upto,
{
    if upto > 0 {
        lemma_part_table_no_middle(names, upto - 1);
        let n = names[upto - 1];
        lemma_parts_tallied_no_middle(
            part_table(names, upto - 1),
            n.guaranteed,
            2,
            (upto - 1) as usize,
            n.gender,
            n.guaranteed.len() as int,
        );
        lemma_parts_tallied_no_middle(
            parts_tallied(
                part_table(names, upto - 1),
                n.guaranteed,
                2,
                (upto - 1) as usize,
                n.gender,
                n.guaranteed.len() as int,
            ),
            n.possible,
            n.possible.len() as u64,
            (upto - 1) as usize,
            n.gender,
            n.possible.len() as int,
        );
    }
}

/// Every part row has a middle score of zero, and its overall score is its
/// start score and its end score together.
pub proof fn lemma_part_rows_middle_zero(names: Seq<NameView>, upto: int, k: int)
    requires
        0 <= k < part_table(names, upto).len(),
    ensures
        records_of(part_table(names, upto), SegmentKind::Part, names)[k].middle == 0,
        records_of(part_table(names, upto), SegmentKind::Part, names)[k].overall == records_of(
            part_table(names, upto),
            SegmentKind::Part,
            names,
        )[k].start + records_of(part_table(names, upto), SegmentKind::Part, names)[k].end,
{
    lemma_part_table_no_middle(names, upto);
    assert(part_table(names, upto)[k].middle.len() == 0);
}

/// Whether rows stand in the order of their start scores, the largest
/// first. Rows of equal start score may stand either way.
pub open spec fn by_start(rows: Seq<RecordView>) -> bool {
    forall|i: int, j: int| 0 <= i < j < rows.len() ==> rows[i].start >= rows[j].start
}

/// Whether two lists hold the same rows, each as often, in whatever order.
pub open spec fn rearranged(a: Seq<RecordView>, b: Seq<RecordView>) -> bool {
    a.to_multiset() == b.to_multiset()
}

/// Puts rows in the order of their start scores, the largest first.
pub fn sort_by_start(rows: Vec<OutputRecord>) -> (r: Vec<OutputRecord>)
    ensures
        by_start(record_views(r@)),
        rearranged(record_views(r@), record_views(rows@)),
        r.len() == rows.len(),
{
    broadcast use to_multiset_build, to_multiset_remove, to_multiset_contains;
    broadcast use group_multiset_axioms;

    let ghost all = record_views(rows@);
    let mut src = rows;
    let mut dst: Vec<OutputRecord> = Vec::new();
    assert(record_views(dst@) =~= Seq::<RecordView>::empty());
    assert(record_views(dst@).to_multiset().add(record_views(src@).to_multiset()) =~= all.to_multiset());
    while src.len() > 0
        invariant
            src.len() + dst.len() == all.len(),
            record_views(dst@).to_multiset().add(record_views(src@).to_multiset())
                == all.to_multiset(),
            by_start(record_views(dst@)),
            forall|i: int, j: int|
                0 <= i < dst.len() && 0 <= j < src.len() ==> (#[trigger] dst@[i]).start_val >= (
                #[trigger] src@[j]).start_val,
        decreases src.len(),
    {
        let mut best: usize = 0;
        let mut k: usize = 1;
        while k < src.len()
            invariant
                best < src.len(),
                1 <= k <= src.len(),
                forall|j: int| 0 <= j < k ==> src@[best as int].start_val >= (#[trigger] src@[j]).start_val,
            decreases src.len() - k,
        {
            if src[k].start_val > src[best].start_val {
                best = k;
            }
            k += 1;
        }
        let ghost d0 = record_views(dst@);
        let ghost s0 = record_views(src@);
        let ghost src0 = src@;
        let x = src.remove(best);
        dst.push(x);
        proof {
            assert(record_views(src@) =~= s0.remove(best as int));
            assert(record_views(dst@) =~= d0.push(s0[best as int]));
            broadcast use group_multiset_axioms;

            to_multiset_build(d0, s0[best as int]);
            to_multiset_remove(s0, best as int);
            to_multiset_contains(s0, s0[best as int]);
            assert(s0.contains(s0[best as int]));
            assert(s0.to_multiset().count(s0[best as int]) > 0);
            assert(d0.push(s0[best as int]).to_multiset() =~= d0.to_multiset().insert(
                s0[best as int],
            ));
            assert(s0.remove(best as int).to_multiset() =~= s0.to_multiset().remove(
                s0[best as int],
            ));
            assert(d0.push(s0[best as int]).to_multiset().add(
                s0.remove(best as int).to_multiset(),
            ) =~= d0.to_multiset().add(s0.to_multiset()));
            assert forall|j: int| 0 <= j < src.len() implies x.start_val >= (#[trigger] src@[j]).start_val by {
                if j < best {
                    assert(src@[j] == src0[j]);
                } else {
                    assert(src@[j] == src0[j + 1]);
                }
            }
            assert forall|i: int, j: int| 0 <= i < j < dst.len() implies record_views(dst@)[i].start
                >= record_views(dst@)[j].start by {
                if j < dst.len() - 1 {
                    assert(d0[i].start >= d0[j].start);
                } else {
                    assert(dst@[i].start_val >= src0[best as int].start_val);
                }
            }
        }
    }
    proof {
        assert(record_views(src@) =~= Seq::<RecordView>::empty());
        assert(record_views(dst@).to_multiset().add(Seq::<RecordView>::empty().to_multiset())
            =~= record_views(dst@).to_multiset());
    }
    dst
}

/// The segmented names of a list of records.
pub open spec fn corpus(records: Seq<NameRecord>) -> Seq<NameView> {
    Seq::new(records.len(), |i: int| record_name(&records[i]))
}

/// Whether every record is in order.
pub open spec fn corpus_ok(records: Seq<NameRecord>) -> bool {
    forall|i: int| 0 <= i < records.len() ==> record_ok(&#[trigger] records[i])
}

/// What is wrong with the first of the first `upto` records that is not in
/// order, if there is one.
pub open spec fn first_error(records: Seq<NameRecord>, upto: int) -> Option<DataError>
    decreases upto,
{
    if upto <= 0 {
        None
    } else if first_error(records, upto - 1) is Some {
        first_error(records, upto - 1)
    } else if record_ok(&records[upto - 1]) {
        None
    } else {
        Some(record_error(&records[upto - 1]))
    }
}

/// An error among the first records is the error of every longer run.
proof fn lemma_first_error_stays(records: Seq<NameRecord>, k: int, upto: int)
    requires
        k <= upto,
        first_error(records, k) is Some,
    ensures
        first_error(records, upto) == first_error(records, k),
    decreases upto - k,
{
    if k < upto {
        lemma_first_error_stays(records, k, upto - 1);
    }
}

/// The error of a corpus that cannot be analysed: that of its first record
/// out of order, or else that a score does not fit its type.
pub open spec fn corpus_error(records: Seq<NameRecord>) -> DataError {
    match first_error(records, records.len() as int) {
        Some(e) => e,
        None => DataError::TooLarge,
    }
}

/// Whether a corpus can be analysed: every record is in order, and every
/// score of both tables fits its type.
pub open spec fn analysable(records: Seq<NameRecord>) -> bool {
    &&& corpus_ok(records)
    &&& table_fits(
        syllable_table(corpus(records), records.len() as int),
        males_of(corpus(records)),
        females_of(corpus(records)),
    )
    &&& table_fits(
        part_table(corpus(records), records.len() as int),
        males_of(corpus(records)),
        females_of(corpus(records)),
    )
}

/// Segments every record, or fails at the first that is not in order.
pub fn segment_all(records: &Vec<NameRecord>) -> (r: Result<Vec<Name>, DataError>)
    ensures
        r is Ok <==> corpus_ok(records@),
        r is Ok <==> first_error(records@, records.len() as int) is None,
        r matches Err(e) ==> Some(e) == first_error(records@, records.len() as int),
        r matches Ok(names) ==> name_views(names@) == corpus(records@) && forall|i: int|
            0 <= i < names.len() ==> (#[trigger] names[i]).wf(),
{
    let mut names: Vec<Name> = Vec::new();
    let mut i: usize = 0;
    while i < records.len()
        invariant
            i <= records.len(),
            names.len() == i,
            first_error(records@, i as int) is None,
            forall|j: int| 0 <= j < i ==> record_ok(&#[trigger] records@[j]),
            forall|j: int| 0 <= j < i ==> (#[trigger] names@[j])@ == record_name(&records@[j]),
            forall|j: int| 0 <= j < i ==> (#[trigger] names@[j]).wf(),
        decreases records.len() - i,
    {
        match Name::segment(&records[i]) {
            Ok(n) => {
                names.push(n);
            },
            Err(e) => {
                proof {
                    assert(!record_ok(&records@[i as int]));
                    assert(first_error(records@, i + 1) == Some(e));
                    lemma_first_error_stays(records@, i + 1, records.len() as int);
                }
                return Err(e);
            },
        }
        i += 1;
    }
    assert(name_views(names@) =~= corpus(records@));
    Ok(names)
}

/// Analyses a corpus: segments every record and tallies every syllable
/// and every part. Returns the syllable rows, the part rows and the
/// segmented names. The syllable rows come in the order of their start
/// scores, the largest first; the part rows in the order in which the
/// parts are first met.
pub fn generate_data(records: &Vec<NameRecord>) -> (r: Result<
    (Vec<OutputRecord>, Vec<OutputRecord>, Vec<Name>),
    DataError,
>)
    ensures
        r is Ok <==> analysable(records@),
        r matches Err(e) ==> e == corpus_error(records@),
        r matches Ok(out) ==> {
            &&& name_views(out.2@) == corpus(records@)
            &&& by_start(record_views(out.0@))
            &&& rearranged(
                record_views(out.0@),
                records_of(
                    syllable_table(corpus(records@), records.len() as int),
                    SegmentKind::Syllable,
                    corpus(records@),
                ),
            )
            &&& record_views(out.1@) == records_of(
                part_table(corpus(records@), records.len() as int),
                SegmentKind::Part,
                corpus(records@),
            )
        },
{
    let names = match segment_all(records) {
        Ok(names) => names,
        Err(e) => {
            return Err(e);
        },
    };
    assert(name_views(names@).len() == names.len() && corpus(records@).len() == records.len());
    let by_syllable = tally_syllables(&names);
    let by_part = tally_parts(&names);
    let syllable_records = match emit_records(&by_syllable, SegmentKind::Syllable, &names) {
        Some(rows) => sort_by_start(rows),
        None => {
            return Err(DataError::TooLarge);
        },
    };
    let part_records = match emit_records(&by_part, SegmentKind::Part, &names) {
        Some(rows) => rows,
        None => {
            return Err(DataError::TooLarge);
        },
    };
    Ok((syllable_records, part_records, names))
}

/// The four scores of a segment, in fixed point.
#[derive(Clone, Copy, Debug, PartialEq, Eq, Structural)]
pub struct PositionalData {
    pub start: u64,
    pub middle: u64,
    pub end: u64,
    pub overall: u64,
}

/// A segment as the synthesis uses it.
#[derive(Clone, Debug, PartialEq, Eq)]
pub struct NameSegment {
    pub segment_kind: SegmentKind,
    pub str: String,
    pub derived_names: Vec<String>,
    pub positional_data: PositionalData,
    pub gender_ratio: u64,
}

pub ghost struct SegmentView {
    pub kind: SegmentKind,
    pub text: Seq<char>,
    pub derived_names: Seq<Seq<char>>,
    pub scores: PositionalData,
    pub gender_ratio: u64,
}

impl View for NameSegment {
    type V = SegmentView;

    open spec fn view(&self) -> SegmentView {
        SegmentView {
            kind: self.segment_kind,
            text: self.str@,
            derived_names: texts(self.derived_names@),
            scores: self.positional_data,
            gender_ratio: self.gender_ratio,
        }
    }
}

/// The views of a list of segments.
pub open spec fn segment_views(v: Seq<NameSegment>) -> Seq<SegmentView> {
    Seq::new(v.len(), |i: int| v[i]@)
}

/// The segment that an output row stands for: the same kind, text, scores
/// and gender ratio, with the names cut at the semicolons.
pub open spec fn segment_of(r: RecordView) -> SegmentView {
    SegmentView {
        kind: r.kind,
        text: r.text,
        derived_names: split_text(r.names, ';'),
        scores: PositionalData {
            start: r.start as u64,
            middle: r.middle as u64,
            end: r.end as u64,
            overall: r.overall as u64,
        },
        gender_ratio: r.gender_ratio as u64,
    }
}

/// Copies a list of strings.
pub fn copy_texts(v: &Vec<String>) -> (r: Vec<String>)
    ensures
        texts(r@) == texts(v@),
{
    let mut r: Vec<String> = Vec::new();
    let mut i: usize = 0;
    while i < v.len()
        invariant
            i <= v.len(),
            r.len() == i,
            forall|j: int| 0 <= j < i ==> (#[trigger] r@[j])@ == v@[j]@,
        decreases v.len() - i,
    {
        r.push(v[i].clone());
        i += 1;
    }
    assert(texts(r@) =~= texts(v@));
    r
}

impl NameSegment {
    /// The segment of an output row. Kind, text and all four scores are
    /// kept as they are.
    pub fn from_record(record: &OutputRecord) -> (r: NameSegment)
        ensures
            r@ == segment_of(record@),
            r.segment_kind == record.segment_kind,
            r.str@ == record.str@,
            r.positional_data.start == record.start_val,
            r.positional_data.middle == record.middle_val,
            r.positional_data.end == record.end_val,
            r.positional_data.overall == record.overall_val,
            r.gender_ratio == record.gender_ratio,
    {
        NameSegment {
            segment_kind: record.segment_kind,
            str: record.str.clone(),
            derived_names: split(record.names.as_str(), ';'),
            positional_data: PositionalData {
                start: record.start_val,
                middle: record.middle_val,
                end: record.end_val,
                overall: record.overall_val,
            },
            gender_ratio: record.gender_ratio,
        }
    }

    /// The separator of a compound name. It carries no scores.
    pub fn apostrophe() -> (r: NameSegment)
        ensures
            r@ == apostrophe_view(),
    {
        proof {
            reveal_strlit("'");
            assert("'"@ =~= seq!['\'']);
        }
        let r = NameSegment {
            segment_kind: SegmentKind::Apostrophe,
            str: String::from_str("'"),
            derived_names: Vec::new(),
            positional_data: PositionalData { start: 0, middle: 0, end: 0, overall: 0 },
            gender_ratio: 0,
        };
        assert(texts(r.derived_names@) =~= Seq::<Seq<char>>::empty());
        r
    }

    /// A copy of the segment.
    pub fn duplicate(&self) -> (r: NameSegment)
        ensures
            r@ == self@,
    {
        NameSegment {
            segment_kind: self.segment_kind,
            str: self.str.clone(),
            derived_names: copy_texts(&self.derived_names),
            positional_data: self.positional_data,
            gender_ratio: self.gender_ratio,
        }
    }
}

pub open spec fn apostrophe_view() -> SegmentView {
    SegmentView {
        kind: SegmentKind::Apostrophe,
        text: seq!['\''],
        derived_names: Seq::empty(),
        scores: PositionalData { start: 0, middle: 0, end: 0, overall: 0 },
        gender_ratio: 0,
    }
}

/// Where no name of the corpus holds a semicolon, the names that a
/// segment carries are the names behind the credits of its tally: those
/// of the start, then the end, then the middle.
pub proof fn lemma_derived_names(t: TallyView, kind: SegmentKind, names: Seq<NameView>)
    requires
        t.occurrences() >= 1,
        forall|i: int| 0 <= i < names.len() ==> clean((#[trigger] names[i]).name, ';'),
        credits_ok(t.start, names.len()),
        credits_ok(t.end, names.len()),
        credits_ok(t.middle, names.len()),
    ensures
        segment_of(record_of(t, kind, names)).derived_names == contributor_names(
            t.start + t.end + t.middle,
            names,
        ),
{
    let list = t.start + t.end + t.middle;
    let pieces = contributor_names(list, names);
    assert forall|k: int| 0 <= k < list.len() implies clean(#[trigger] pieces[k], ';') by {
        if k < t.start.len() {
            assert(list[k] == t.start[k]);
        } else if k < t.start.len() + t.end.len() {
            assert(list[k] == t.end[k - t.start.len()]);
        } else {
            assert(list[k] == t.middle[k - t.start.len() - t.end.len()]);
        }
        assert(list[k].name < names.len());
        assert(clean(names[list[k].name as int].name, ';'));
    }
    lemma_join_splits_back(pieces, ';', list.len() as int);
    assert(pieces.take(list.len() as int) =~= pieces);
}

/// Whether a pool of syllables is made from the syllable rows of a
/// corpus, put in the order of their start scores.
pub open spec fn syllable_pool_of(pool: Seq<SegmentView>, names: Seq<NameView>) -> bool {
    exists|rows: Seq<RecordView>|
        {
            &&& by_start(rows)
            &&& #[trigger] rearranged(
                rows,
                records_of(
                    syllable_table(names, names.len() as int),
                    SegmentKind::Syllable,
                    names,
                ),
            )
            &&& pool == rows.map_values(|v| segment_of(v))
        }
}

/// Whether segments stand in the order of their start scores, the largest
/// first.
pub open spec fn pool_by_start(pool: Seq<SegmentView>) -> bool {
    forall|i: int, j: int|
        0 <= i < j < pool.len() ==> pool[i].scores.start >= pool[j].scores.start
}

/// Turns output rows into segments, one for each row.
pub fn segments_from(records: &Vec<OutputRecord>) -> (r: Vec<NameSegment>)
    ensures
        r.len() == records.len(),
        forall|i: int| 0 <= i < r.len() ==> (#[trigger] r@[i])@ == segment_of(records@[i]@),
{
    let mut r: Vec<NameSegment> = Vec::new();
    let mut i: usize = 0;
    while i < records.len()
        invariant
            i <= records.len(),
            r.len() == i,
            forall|j: int| 0 <= j < i ==> (#[trigger] r@[j])@ == segment_of(records@[j]@),
        decreases records.len() - i,
    {
        r.push(NameSegment::from_record(&records[i]));
        i += 1;
    }
    r
}

} // verus!
