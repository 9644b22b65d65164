//! Name synthesis: the scored segments are sampled by weight and assembled
//! into new names.
//!
//! Lengths, chances and draws are in fixed point. A uniform draw is one of
//! the fractions `1 / UNIT`, `2 / UNIT`, up to one: it is never zero, so a
//! chance shrinks with every insertion and the insertions end.

use vstd::prelude::*;
use vstd::string::*;
use rand::rngs::StdRng;
use crate::data_processing::{
    NameSegment, SegmentKind, SegmentView, UNIT, apostrophe_view, segment_views,
};
use crate::util::{
    begins_closed, capitalize, capitalized, ends_closed, ends_with_consonant, same_text,
    starts_with_consonant,
};

verus! {

/// The seeded generator of the `rand` crate, the source of every draw.
#[verifier::external_type_specification]
#[verifier::external_body]
pub struct ExStdRng(rand::rngs::StdRng);

/// A part needs a score above this, two in fixed point, to begin or to end
/// a compound name.
pub const CUTOFF: u64 = 2_000_000;

/// Of a hundred insertions, this many may put consonant beside consonant.
pub const CLUSTER_PERCENT: u64 = 5;

/// The sum of a list of weights.
pub open spec fn weight_total(w: Seq<u64>) -> nat
    decreases w.len(),
{
    if w.len() == 0 {
        0
    } else {
        weight_total(w.drop_last()) + w.last() as nat
    }
}

/// Whether a list of weights can be sampled: some weight is positive, and
/// the sum fits the weights' type.
pub open spec fn usable(w: Seq<u64>) -> bool {
    0 < weight_total(w) <= u64::MAX
}

/// Calls `Rng::random_range` of `rand` on the closed range from `lo` to
/// `hi`. The range must not be empty, since the call panics on an empty
/// one. Whatever is drawn lies in the range; nothing else is claimed.
#[verifier::external_body]
fn draw_in(rng: &mut StdRng, lo: u64, hi: u64) -> (r: u64)
    requires
        lo <= hi,
    ensures
        lo <= r <= hi,
{
    rand::Rng::random_range(rng, lo..=hi)
}

/// Builds a `WeightedIndex` of `rand` over the weights and draws one index
/// from it with `Distribution::sample`. The weights must be usable: for
/// integer weights the constructor fails exactly where the list is empty,
/// the sum is zero or the sum overflows. The drawn index is in range and its
/// weight is positive: the sampler picks a point below the total and
/// returns the entry whose span of the running sum holds the point.
#[verifier::external_body]
fn draw_weighted(rng: &mut StdRng, weights: &Vec<u64>) -> (i: usize)
    requires
        usable(weights@),
    ensures
        i < weights.len(),
        weights@[i as int] > 0,
{
    let dist = rand::distr::weighted::WeightedIndex::new(weights).unwrap();
    rand::distr::Distribution::sample(&dist, rng)
}

/// What to generate.
#[derive(Clone, Copy, Debug, PartialEq, Eq, Structural)]
pub struct NameGenOptions {
    /// The target complexity in fixed point, meant to lie between one and
    /// four.
    pub length: u64,
    /// How many names to generate.
    pub amount: usize,
    /// The wished share of male names in fixed point. No sampling step
    /// reads it.
    pub gender_ratio: u64,
    /// Whether the reserved parts are left out.
    pub omit_reserved: bool,
}

impl Default for NameGenOptions {
    fn default() -> (r: NameGenOptions)
        ensures
            r.length == 2 * UNIT,
            r.amount == 10,
            r.gender_ratio == UNIT / 2,
            r.omit_reserved == false,
    {
        NameGenOptions { length: 2 * UNIT, amount: 10, gender_ratio: UNIT / 2, omit_reserved: false }
    }
}

/// The parts that stand for titles, and that the options can exclude.
pub open spec fn is_reserved(t: Seq<char>) -> bool {
    t == seq!['j', 'i', 'n'] || t == seq!['f', 'o', 'n'] || t == seq!['z', 'e', 'n'] || t
        == seq!['z', 'u', 'l']
}

/// Whether `s` is a reserved part.
pub fn reserved(s: &str) -> (b: bool)
    ensures
        b == is_reserved(s@),
{
    proof {
        reveal_strlit("jin");
        reveal_strlit("fon");
        reveal_strlit("zen");
        reveal_strlit("zul");
        assert("jin"@ =~= seq!['j', 'i', 'n']);
        assert("fon"@ =~= seq!['f', 'o', 'n']);
        assert("zen"@ =~= seq!['z', 'e', 'n']);
        assert("zul"@ =~= seq!['z', 'u', 'l']);
    }
    same_text(s, "jin") || same_text(s, "fon") || same_text(s, "zen") || same_text(s, "zul")
}

/// The pools that the synthesis samples.
#[derive(Clone, Copy, Debug, PartialEq, Eq, Structural)]
pub enum PoolKind {
    /// Parts that can be a whole name.
    Part,
    /// Parts that can begin a compound name.
    First,
    /// Parts that can end a compound name.
    Second,
    /// Syllables that can be inserted.
    Middle,
    /// Syllables that can be inserted and do not begin with a consonant.
    OpenStart,
    /// Syllables that can be inserted and do not end with a consonant.
    OpenEnd,
}

#[derive(Clone, Copy, Debug, PartialEq, Eq, Structural)]
pub enum GenError {
    /// A pool that the options call for has no member with a positive
    /// weight.
    EmptyPool(PoolKind),
    /// The weights of a pool that the options call for add up to more than
    /// their type holds.
    WeightOverflow(PoolKind),
}

/// Whether a segment can enter a pool of parts at all.
pub open spec fn part_eligible(s: SegmentView, omit: bool) -> bool {
    s.kind == SegmentKind::Part && !(omit && is_reserved(s.text))
}

/// The weight of a segment in a pool; zero where it is not a member. A
/// whole-name part weighs the mean of its start and end scores, a first or
/// second part its start or end score where that is above the cutoff, a
/// syllable its middle score.
pub open spec fn weight_of(kind: PoolKind, s: SegmentView, omit: bool) -> u64 {
    match kind {
        PoolKind::Part => if part_eligible(s, omit) {
            ((s.scores.start + s.scores.end) / 2) as u64
        } else {
            0
        },
        PoolKind::First => if part_eligible(s, omit) && s.scores.start > CUTOFF {
            s.scores.start
        } else {
            0
        },
        PoolKind::Second => if part_eligible(s, omit) && s.scores.end > CUTOFF {
            s.scores.end
        } else {
            0
        },
        PoolKind::Middle => if s.kind == SegmentKind::Syllable {
            s.scores.middle
        } else {
            0
        },
        PoolKind::OpenStart => if s.kind == SegmentKind::Syllable && !begins_closed(s.text) {
            s.scores.middle
        } else {
            0
        },
        PoolKind::OpenEnd => if s.kind == SegmentKind::Syllable && !ends_closed(s.text) {
            s.scores.middle
        } else {
            0
        },
    }
}

/// The weights of a list of segments in a pool.
pub open spec fn weights_of(kind: PoolKind, segs: Seq<SegmentView>, omit: bool) -> Seq<u64> {
    Seq::new(segs.len(), |i: int| weight_of(kind, segs[i], omit))
}

/// The weight of one segment in a pool.
pub fn weigh(kind: PoolKind, s: &NameSegment, omit: bool) -> (w: u64)
    ensures
        w == weight_of(kind, s@, omit),
{
    match kind {
        PoolKind::Part | PoolKind::First | PoolKind::Second => {
            if s.segment_kind != SegmentKind::Part || (omit && reserved(s.str.as_str())) {
                0
            } else {
                match kind {
                    PoolKind::Part => {
                        let sum: u128 = s.positional_data.start as u128
                            + s.positional_data.end as u128;
                        (sum / 2) as u64
                    },
                    PoolKind::First => if s.positional_data.start > CUTOFF {
                        s.positional_data.start
                    } else {
                        0
                    },
                    _ => if s.positional_data.end > CUTOFF {
                        s.positional_data.end
                    } else {
                        0
                    },
                }
            }
        },
        PoolKind::Middle => if s.segment_kind == SegmentKind::Syllable {
            s.positional_data.middle
        } else {
            0
        },
        PoolKind::OpenStart => if s.segment_kind == SegmentKind::Syllable
            && !starts_with_consonant(s.str.as_str()) {
            s.positional_data.middle
        } else {
            0
        },
        PoolKind::OpenEnd => if s.segment_kind == SegmentKind::Syllable && !ends_with_consonant(
            s.str.as_str(),
        ) {
            s.positional_data.middle
        } else {
            0
        },
    }
}

/// The weights of all segments in a pool.
pub fn build_weights(kind: PoolKind, segs: &Vec<NameSegment>, omit: bool) -> (w: Vec<u64>)
    ensures
        w@ == weights_of(kind, segment_views(segs@), omit),
{
    let mut w: Vec<u64> = Vec::new();
    let mut i: usize = 0;
    while i < segs.len()
        invariant
            i <= segs.len(),
            w.len() == i,
            forall|j: int| 0 <= j < i ==> #[trigger] w@[j] == weight_of(kind, segs@[j]@, omit),
        decreases segs.len() - i,
    {
        w.push(weigh(kind, &segs[i], omit));
        i += 1;
    }
    assert(w@ =~= weights_of(kind, segment_views(segs@), omit));
    w
}

/// Adds up a list of weights.
pub fn pool_total(w: &Vec<u64>) -> (t: u128)
    ensures
        t == weight_total(w@),
{
    let mut t: u128 = 0;
    let mut i: usize = 0;
    assert(w@.take(0) =~= Seq::<u64>::empty());
    while i < w.len()
        invariant
            i <= w.len(),
            t == weight_total(w@.take(i as int)),
            t <= i * 0xffff_ffff_ffff_ffff,
        decreases w.len() - i,
    {
        assert(w@.take(i + 1).drop_last() =~= w@.take(i as int));
        assert(w@.take(i + 1).last() == w@[i as int]);
        assert(i * 0xffff_ffff_ffff_ffff + 0xffff_ffff_ffff_ffff <= 0xffff_ffff_ffff_ffff
            * 0xffff_ffff_ffff_ffff) by (nonlinear_arith)
            requires
                i < 0xffff_ffff_ffff_ffff,
        ;
        t = t + w[i] as u128;
        i += 1;
    }
    assert(w@.take(w.len() as int) =~= w@);
    t
}

/// The two shapes of a name: one part alone, or two parts around a
/// separator.
#[derive(Clone, Copy, Debug, PartialEq, Eq, Structural)]
pub enum Shape {
    Atomic,
    Compound,
}

/// The shape that a draw `u` decides: atomic where the length is below two
/// and `u` exceeds the length less one.
pub open spec fn shape_for(length: u64, u: u64) -> Shape {
    if length < 2 * UNIT && u + UNIT > length {
        Shape::Atomic
    } else {
        Shape::Compound
    }
}

/// Decides the shape of a name from a draw.
pub fn choose_shape(length: u64, u: u64) -> (s: Shape)
    ensures
        s == shape_for(length, u),
{
    if length < 2 * UNIT && u as u128 + UNIT as u128 > length as u128 {
        Shape::Atomic
    } else {
        Shape::Compound
    }
}

/// The chance of a first insertion: the length less two, and no less than
/// zero.
pub open spec fn insertion_chance(length: u64) -> u64 {
    if length > 2 * UNIT {
        (length - 2 * UNIT) as u64
    } else {
        0
    }
}

/// The chance of a first insertion for a length.
pub fn first_chance(length: u64) -> (p: u64)
    ensures
        p == insertion_chance(length),
{
    if length > 2 * UNIT {
        length - 2 * UNIT
    } else {
        0
    }
}

/// The chance `p` divided by one plus the draw `v`, rounded down.
pub open spec fn shrunk(p: u64, v: u64) -> nat {
    (p as nat * UNIT as nat) / (UNIT as nat + v as nat)
}

/// Shrinks the chance of another insertion. A positive draw makes a
/// positive chance smaller.
pub fn shrink(p: u64, v: u64) -> (r: u64)
    ensures
        r == shrunk(p, v),
        r <= p,
        p > 0 && v > 0 ==> r < p,
{
    assert(p * 1_000_000 <= 0xffff_ffff_ffff_ffff * 1_000_000) by (nonlinear_arith)
        requires
            p <= 0xffff_ffff_ffff_ffff,
    ;
    let top: u128 = (p as u128) * (UNIT as u128);
    let bottom: u128 = UNIT as u128 + v as u128;
    let q: u128 = top / bottom;
    proof {
        assert(q <= p && (p > 0 && v > 0 ==> q < p)) by (nonlinear_arith)
            requires
                q == (p * 1_000_000) / (1_000_000 + v),
                p >= 0,
                v >= 0,
        ;
    }
    q as u64
}

/// Where a syllable is inserted: right after the first part, or right
/// before the second.
#[derive(Clone, Copy, Debug, PartialEq, Eq, Structural)]
pub enum Side {
    AfterFirst,
    BeforeSecond,
}

/// The side that a draw of zero or one decides: zero is after the first
/// part.
pub open spec fn side_for(d: u64) -> Side {
    if d == 0 {
        Side::AfterFirst
    } else {
        Side::BeforeSecond
    }
}

/// Decides the side of an insertion from a draw.
pub fn choose_side(d: u64) -> (s: Side)
    ensures
        s == side_for(d),
{
    if d == 0 {
        Side::AfterFirst
    } else {
        Side::BeforeSecond
    }
}

/// Whether a draw from one to a hundred allows a consonant cluster.
pub fn allows_cluster(d: u64) -> (b: bool)
    ensures
        b == (d <= CLUSTER_PERCENT),
{
    d <= CLUSTER_PERCENT
}

/// The pool that an insertion draws from. Unless a cluster is allowed, a
/// syllable placed after a first part that ends with a consonant must not
/// begin with one, and a syllable placed before a second part that begins
/// with a consonant must not end with one.
pub open spec fn pool_for(
    side: Side,
    cluster: bool,
    first_closed: bool,
    second_closed: bool,
) -> PoolKind {
    if cluster {
        PoolKind::Middle
    } else {
        match side {
            Side::AfterFirst => if first_closed {
                PoolKind::OpenStart
            } else {
                PoolKind::Middle
            },
            Side::BeforeSecond => if second_closed {
                PoolKind::OpenEnd
            } else {
                PoolKind::Middle
            },
        }
    }
}

/// Chooses the pool of an insertion.
pub fn insertion_pool(side: Side, cluster: bool, first_closed: bool, second_closed: bool) -> (k:
    PoolKind)
    ensures
        k == pool_for(side, cluster, first_closed, second_closed),
{
    if cluster {
        PoolKind::Middle
    } else {
        match side {
            Side::AfterFirst => if first_closed {
                PoolKind::OpenStart
            } else {
                PoolKind::Middle
            },
            Side::BeforeSecond => if second_closed {
                PoolKind::OpenEnd
            } else {
                PoolKind::Middle
            },
        }
    }
}

/// The index at which an insertion on `side` goes into a sequence of `len`
/// segments.
pub open spec fn insertion_index(side: Side, len: int) -> int {
    match side {
        Side::AfterFirst => 1,
        Side::BeforeSecond => len - 1,
    }
}

/// The index of an insertion into a sequence of at least one segment.
pub fn insertion_at(side: Side, len: usize) -> (at: usize)
    requires
        len >= 1,
    ensures
        at == insertion_index(side, len as int),
{
    match side {
        Side::AfterFirst => 1,
        Side::BeforeSecond => len - 1,
    }
}

/// A syllable to insert, and where.
#[derive(Clone, Debug, PartialEq, Eq)]
pub struct Insertion {
    pub side: Side,
    pub segment: NameSegment,
}

pub ghost struct InsertionView {
    pub side: Side,
    pub segment: SegmentView,
}

impl View for Insertion {
    type V = InsertionView;

    open spec fn view(&self) -> InsertionView {
        InsertionView { side: self.side, segment: self.segment@ }
    }
}

/// The views of a list of insertions.
pub open spec fn insertion_views(v: Seq<Insertion>) -> Seq<InsertionView> {
    Seq::new(v.len(), |i: int| v[i]@)
}

/// The backbone of a compound name: the two parts around the separator.
pub open spec fn backbone(first: SegmentView, second: SegmentView) -> Seq<SegmentView> {
    seq![first, apostrophe_view(), second]
}

/// The sequence after the first `upto` insertions are made, one after the
/// other, each at the index that its side gives in the sequence as it is
/// by then.
pub open spec fn placed(els: Seq<SegmentView>, ins: Seq<InsertionView>, upto: int) -> Seq<
    SegmentView,
>
    decreases upto,
{
    if upto <= 0 {
        els
    } else {
        let before = placed(els, ins, upto - 1);
        before.insert(insertion_index(ins[upto - 1].side, before.len() as int), ins[upto - 1].segment)
    }
}

/// Materializes a compound name: the backbone of `first` and `second`
/// with the insertions made in order.
pub fn materialize(first: NameSegment, second: NameSegment, insertions: &Vec<Insertion>) -> (r:
    Vec<NameSegment>)
    ensures
        segment_views(r@) == placed(
            backbone(first@, second@),
            insertion_views(insertions@),
            insertions.len() as int,
        ),
        r.len() == 3 + insertions.len(),
{
    let ghost base = backbone(first@, second@);
    let ghost ins = insertion_views(insertions@);
    let mut els: Vec<NameSegment> = Vec::new();
    els.push(first);
    els.push(NameSegment::apostrophe());
    els.push(second);
    assert(segment_views(els@) =~= base);
    let mut i: usize = 0;
    while i < insertions.len()
        invariant
            i <= insertions.len(),
            ins == insertion_views(insertions@),
            els.len() == 3 + i,
            segment_views(els@) == placed(base, ins, i as int),
        decreases insertions.len() - i,
    {
        let ghost before = segment_views(els@);
        let at = insertion_at(insertions[i].side, els.len());
        let seg = insertions[i].segment.duplicate();
        els.insert(at, seg);
        proof {
            assert(ins[i as int] == insertions[i as int]@);
            assert(segment_views(els@) =~= before.insert(at as int, seg@));
        }
        i += 1;
    }
    els
}

/// A generated name.
#[derive(Clone, Debug, PartialEq, Eq)]
pub struct GeneratedName {
    /// The segments in order, the separator among them.
    pub elements: Vec<NameSegment>,
    /// The name as it is shown.
    pub display: String,
}

pub ghost struct GeneratedView {
    pub elements: Seq<SegmentView>,
    pub display: Seq<char>,
}

impl View for GeneratedName {
    type V = GeneratedView;

    open spec fn view(&self) -> GeneratedView {
        GeneratedView { elements: segment_views(self.elements@), display: self.display@ }
    }
}

/// The texts of the first `upto` segments, one after the other.
pub open spec fn rendered(els: Seq<SegmentView>, upto: int) -> Seq<char>
    decreases upto,
{
    if upto <= 0 {
        Seq::<char>::empty()
    } else {
        rendered(els, upto - 1) + els[upto - 1].text
    }
}

/// The sum of the gender ratios of the first `upto` segments, separators
/// left out.
pub open spec fn gender_sum(els: Seq<SegmentView>, upto: int) -> nat
    decreases upto,
{
    if upto <= 0 {
        0
    } else {
        gender_sum(els, upto - 1) + if els[upto - 1].kind == SegmentKind::Apostrophe {
            0nat
        } else {
            els[upto - 1].gender_ratio as nat
        }
    }
}

/// How many of the first `upto` segments are no separators.
pub open spec fn voiced_count(els: Seq<SegmentView>, upto: int) -> nat
    decreases upto,
{
    if upto <= 0 {
        0
    } else {
        voiced_count(els, upto - 1) + if els[upto - 1].kind == SegmentKind::Apostrophe {
            0nat
        } else {
            1nat
        }
    }
}

/// The mean gender ratio over the segments that are no separators, rounded
/// down; one half where there is none.
pub open spec fn mean_gender(els: Seq<SegmentView>) -> nat {
    if voiced_count(els, els.len() as int) == 0 {
        (UNIT / 2) as nat
    } else {
        gender_sum(els, els.len() as int) / voiced_count(els, els.len() as int)
    }
}

/// The mean of gender ratios that lie between zero and one lies between
/// zero and one.
pub proof fn lemma_mean_gender_in_range(els: Seq<SegmentView>)
    requires
        forall|k: int| 0 <= k < els.len() ==> (#[trigger] els[k]).gender_ratio <= UNIT,
    ensures
        mean_gender(els) <= UNIT,
{
    lemma_gender_sum_bound(els, els.len() as int);
    let n = voiced_count(els, els.len() as int);
    let sum = gender_sum(els, els.len() as int);
    if n > 0 {
        assert(sum / n <= UNIT) by (nonlinear_arith)
            requires
                n > 0,
                sum <= n * UNIT,
        ;
    }
}

/// The sum of the first ratios is at most one for each segment counted.
proof fn lemma_gender_sum_bound(els: Seq<SegmentView>, upto: int)
    requires
        upto <= els.len(),
        forall|k: int| 0 <= k < els.len() ==> (#[trigger] els[k]).gender_ratio <= UNIT,
    ensures
        gender_sum(els, upto) <= voiced_count(els, upto) * UNIT,
    decreases upto,
{
    if upto > 0 {
        lemma_gender_sum_bound(els, upto - 1);
        assert((voiced_count(els, upto - 1) + 1) * UNIT == voiced_count(els, upto - 1) * UNIT
            + UNIT) by (nonlinear_arith);
    }
}

impl GeneratedName {
    /// Bakes a sequence of segments into a name: the texts are joined and
    /// the first character is capitalized.
    pub fn bake(elements: Vec<NameSegment>) -> (r: GeneratedName)
        ensures
            r.elements == elements,
            r@.display == capitalized(rendered(r@.elements, r@.elements.len() as int)),
    {
        let mut text = String::new();
        let mut i: usize = 0;
        while i < elements.len()
            invariant
                i <= elements.len(),
                text@ == rendered(segment_views(elements@), i as int),
            decreases elements.len() - i,
        {
            text.append(elements[i].str.as_str());
            i += 1;
        }
        let display = capitalize(text.as_str());
        GeneratedName { elements, display }
    }

    /// The name as it is shown.
    pub fn to_string(&self) -> (r: String)
        ensures
            r@ == self@.display,
    {
        self.display.clone()
    }

    /// The gender estimate of the name, in fixed point.
    pub fn gender(&self) -> (r: u64)
        ensures
            r == mean_gender(self@.elements),
    {
        let ghost els = segment_views(self.elements@);
        let mut sum: u128 = 0;
        let mut count: u128 = 0;
        let mut i: usize = 0;
        while i < self.elements.len()
            invariant
                i <= self.elements.len(),
                els == segment_views(self.elements@),
                sum == gender_sum(els, i as int),
                count == voiced_count(els, i as int),
                count <= i,
                sum <= count * 0xffff_ffff_ffff_ffff,
            decreases self.elements.len() - i,
        {
            let e = &self.elements[i];
            assert(els[i as int] == e@);
            if e.segment_kind != SegmentKind::Apostrophe {
                assert(count * 0xffff_ffff_ffff_ffff + 0xffff_ffff_ffff_ffff == (count + 1)
                    * 0xffff_ffff_ffff_ffff) by (nonlinear_arith);
                assert((count + 1) * 0xffff_ffff_ffff_ffff <= 0xffff_ffff_ffff_ffff
                    * 0xffff_ffff_ffff_ffff) by (nonlinear_arith)
                    requires
                        count < 0xffff_ffff_ffff_ffff,
                ;
                sum = sum + e.gender_ratio as u128;
                count = count + 1;
            }
            i += 1;
        }
        if count == 0 {
            UNIT / 2
        } else {
            let q: u128 = sum / count;
            proof {
                assert(q <= 0xffff_ffff_ffff_ffff) by (nonlinear_arith)
                    requires
                        q == sum / count,
                        count > 0,
                        sum <= count * 0xffff_ffff_ffff_ffff,
                ;
            }
            q as u64
        }
    }
}

/// The segments that a pool is made of: parts for the three pools of
/// parts, syllables for the others.
pub open spec fn source_of(
    kind: PoolKind,
    parts: Seq<SegmentView>,
    syllables: Seq<SegmentView>,
) -> Seq<SegmentView> {
    match kind {
        PoolKind::Part | PoolKind::First | PoolKind::Second => parts,
        _ => syllables,
    }
}

/// The weights of a pool.
pub open spec fn pool_weights(
    kind: PoolKind,
    parts: Seq<SegmentView>,
    syllables: Seq<SegmentView>,
    omit: bool,
) -> Seq<u64> {
    weights_of(kind, source_of(kind, parts, syllables), omit)
}

/// Whether some draw can lead to sampling the pool. A draw is a positive
/// multiple of the smallest fraction, up to one. A name can be atomic
/// where the length is below two and compound where it is above one; a
/// syllable can be inserted where the length less two exceeds the smallest
/// draw.
pub open spec fn required(kind: PoolKind, length: u64) -> bool {
    match kind {
        PoolKind::Part => length < 2 * UNIT,
        PoolKind::First | PoolKind::Second => length > UNIT,
        _ => length > 2 * UNIT + 1,
    }
}

/// What is wrong with a pool, if the options call for it and it cannot be
/// sampled.
pub open spec fn failure_of(kind: PoolKind, w: Seq<u64>, length: u64) -> Option<GenError> {
    if !required(kind, length) || usable(w) {
        None
    } else if weight_total(w) == 0 {
        Some(GenError::EmptyPool(kind))
    } else {
        Some(GenError::WeightOverflow(kind))
    }
}

/// Checks one pool.
pub fn check_pool(kind: PoolKind, w: &Vec<u64>, length: u64) -> (r: Option<GenError>)
    ensures
        r == failure_of(kind, w@, length),
{
    let needed = match kind {
        PoolKind::Part => length < 2 * UNIT,
        PoolKind::First | PoolKind::Second => length > UNIT,
        _ => length > 2 * UNIT + 1,
    };
    if !needed {
        return None;
    }
    let total = pool_total(w);
    if total == 0 {
        Some(GenError::EmptyPool(kind))
    } else if total > u64::MAX as u128 {
        Some(GenError::WeightOverflow(kind))
    } else {
        None
    }
}

/// The first of two findings.
pub open spec fn or_else(a: Option<GenError>, b: Option<GenError>) -> Option<GenError> {
    if a is Some {
        a
    } else {
        b
    }
}

/// The failure of the first of six pools, in the order whole-name parts,
/// first parts, second parts, middle syllables, open-start syllables,
/// open-end syllables, that the length calls for and that cannot be
/// sampled.
pub open spec fn failure_among(
    part: Seq<u64>,
    first: Seq<u64>,
    second: Seq<u64>,
    middle: Seq<u64>,
    open_start: Seq<u64>,
    open_end: Seq<u64>,
    length: u64,
) -> Option<GenError> {
    or_else(
        failure_of(PoolKind::Part, part, length),
        or_else(
            failure_of(PoolKind::First, first, length),
            or_else(
                failure_of(PoolKind::Second, second, length),
                or_else(
                    failure_of(PoolKind::Middle, middle, length),
                    or_else(
                        failure_of(PoolKind::OpenStart, open_start, length),
                        failure_of(PoolKind::OpenEnd, open_end, length),
                    ),
                ),
            ),
        ),
    )
}

/// The failure of the first pool of the given segments that the length
/// calls for and that cannot be sampled.
pub open spec fn first_failure(
    parts: Seq<SegmentView>,
    syllables: Seq<SegmentView>,
    length: u64,
    omit: bool,
) -> Option<GenError> {
    failure_among(
        pool_weights(PoolKind::Part, parts, syllables, omit),
        pool_weights(PoolKind::First, parts, syllables, omit),
        pool_weights(PoolKind::Second, parts, syllables, omit),
        pool_weights(PoolKind::Middle, parts, syllables, omit),
        pool_weights(PoolKind::OpenStart, parts, syllables, omit),
        pool_weights(PoolKind::OpenEnd, parts, syllables, omit),
        length,
    )
}

/// The weights of the six pools.
pub struct Pools {
    pub part: Vec<u64>,
    pub first: Vec<u64>,
    pub second: Vec<u64>,
    pub middle: Vec<u64>,
    pub open_start: Vec<u64>,
    pub open_end: Vec<u64>,
}

impl Pools {
    /// Whether these are the weights of the given segments.
    pub open spec fn built_from(
        &self,
        parts: Seq<SegmentView>,
        syllables: Seq<SegmentView>,
        omit: bool,
    ) -> bool {
        &&& self.part@ == pool_weights(PoolKind::Part, parts, syllables, omit)
        &&& self.first@ == pool_weights(PoolKind::First, parts, syllables, omit)
        &&& self.second@ == pool_weights(PoolKind::Second, parts, syllables, omit)
        &&& self.middle@ == pool_weights(PoolKind::Middle, parts, syllables, omit)
        &&& self.open_start@ == pool_weights(PoolKind::OpenStart, parts, syllables, omit)
        &&& self.open_end@ == pool_weights(PoolKind::OpenEnd, parts, syllables, omit)
    }

    /// Weighs every segment for every pool.
    pub fn build(parts: &Vec<NameSegment>, syllables: &Vec<NameSegment>, omit: bool) -> (r: Pools)
        ensures
            r.built_from(segment_views(parts@), segment_views(syllables@), omit),
    {
        Pools {
            part: build_weights(PoolKind::Part, parts, omit),
            first: build_weights(PoolKind::First, parts, omit),
            second: build_weights(PoolKind::Second, parts, omit),
            middle: build_weights(PoolKind::Middle, syllables, omit),
            open_start: build_weights(PoolKind::OpenStart, syllables, omit),
            open_end: build_weights(PoolKind::OpenEnd, syllables, omit),
        }
    }

    /// Finds the first pool that the length calls for and that cannot be
    /// sampled.
    pub fn check(&self, length: u64) -> (r: Option<GenError>)
        ensures
            r == failure_among(
                self.part@,
                self.first@,
                self.second@,
                self.middle@,
                self.open_start@,
                self.open_end@,
                length,
            ),
    {
        let a = check_pool(PoolKind::Part, &self.part, length);
        if a.is_some() {
            return a;
        }
        let b = check_pool(PoolKind::First, &self.first, length);
        if b.is_some() {
            return b;
        }
        let c = check_pool(PoolKind::Second, &self.second, length);
        if c.is_some() {
            return c;
        }
        let d = check_pool(PoolKind::Middle, &self.middle, length);
        if d.is_some() {
            return d;
        }
        let e = check_pool(PoolKind::OpenStart, &self.open_start, length);
        if e.is_some() {
            return e;
        }
        check_pool(PoolKind::OpenEnd, &self.open_end, length)
    }
}

/// Whether a segment is one of a list.
pub open spec fn member(e: SegmentView, pool: Seq<SegmentView>) -> bool {
    exists|i: int| 0 <= i < pool.len() && #[trigger] pool[i] == e
}

/// Whether a segment is one of a list and has a positive weight in a pool.
pub open spec fn drawn(e: SegmentView, kind: PoolKind, pool: Seq<SegmentView>, omit: bool) -> bool {
    member(e, pool) && weight_of(kind, e, omit) > 0
}

/// A name of one part alone, from the pool of whole-name parts.
pub open spec fn atomic_ok(els: Seq<SegmentView>, parts: Seq<SegmentView>, omit: bool) -> bool {
    els.len() == 1 && drawn(els[0], PoolKind::Part, parts, omit)
}

/// A compound name with its separator at index `a`: a first part, a
/// second part at the end, and between them the separator and inserted
/// syllables from the middle pool.
pub open spec fn compound_ok(
    els: Seq<SegmentView>,
    a: int,
    parts: Seq<SegmentView>,
    syllables: Seq<SegmentView>,
    omit: bool,
) -> bool {
    &&& els.len() >= 3
    &&& 0 < a < els.len() - 1
    &&& els[a] == apostrophe_view()
    &&& drawn(els[0], PoolKind::First, parts, omit)
    &&& drawn(els[els.len() - 1], PoolKind::Second, parts, omit)
    &&& forall|k: int|
        0 < k < els.len() - 1 && k != a ==> drawn(
            #[trigger] els[k],
            PoolKind::Middle,
            syllables,
            omit,
        )
}

/// What holds of every generated name: its display is its segments' texts
/// joined and capitalized; it is atomic, which takes a length below two,
/// or compound, which takes a length above one; and a compound name has
/// insertions only where the length less two exceeds the smallest draw,
/// and at least one where the length exceeds three.
pub open spec fn name_ok(
    n: GeneratedView,
    parts: Seq<SegmentView>,
    syllables: Seq<SegmentView>,
    o: NameGenOptions,
) -> bool {
    &&& n.display == capitalized(rendered(n.elements, n.elements.len() as int))
    &&& {
        ||| atomic_ok(n.elements, parts, o.omit_reserved) && o.length < 2 * UNIT
        ||| {
            &&& o.length > UNIT
            &&& o.length <= 2 * UNIT + 1 ==> n.elements.len() == 3
            &&& o.length > 3 * UNIT ==> n.elements.len() >= 4
            &&& exists|a: int| compound_ok(n.elements, a, parts, syllables, o.omit_reserved)
        }
    }
}

/// A backbone of drawn parts with syllables of the middle pool inserted is
/// a compound name.
pub proof fn lemma_placed_compound(
    first: SegmentView,
    second: SegmentView,
    ins: Seq<InsertionView>,
    upto: int,
    parts: Seq<SegmentView>,
    syllables: Seq<SegmentView>,
    omit: bool,
)
    requires
        0 <= upto <= ins.len(),
        drawn(first, PoolKind::First, parts, omit),
        drawn(second, PoolKind::Second, parts, omit),
        forall|k: int|
            0 <= k < ins.len() ==> drawn(
                (#[trigger] ins[k]).segment,
                PoolKind::Middle,
                syllables,
                omit,
            ),
    ensures
        exists|a: int| compound_ok(placed(backbone(first, second), ins, upto), a, parts, syllables, omit),
    decreases upto,
{
    let base = backbone(first, second);
    if upto == 0 {
        assert(placed(base, ins, upto) == base);
        assert(compound_ok(placed(base, ins, upto), 1, parts, syllables, omit));
    } else {
        lemma_placed_compound(first, second, ins, upto - 1, parts, syllables, omit);
        let before = placed(base, ins, upto - 1);
        let a = choose|a: int| compound_ok(before, a, parts, syllables, omit);
        let side = ins[upto - 1].side;
        let seg = ins[upto - 1].segment;
        let at = insertion_index(side, before.len() as int);
        let after = placed(base, ins, upto);
        assert(after == before.insert(at, seg));
        let b = if side == Side::AfterFirst {
            a + 1
        } else {
            a
        };
        assert forall|m: int| 0 < m < after.len() - 1 && m != b implies drawn(
            #[trigger] after[m],
            PoolKind::Middle,
            syllables,
            omit,
        ) by {
            if m < at {
                assert(after[m] == before[m]);
            } else if m == at {
                assert(after[m] == seg);
            } else {
                assert(after[m] == before[m - 1]);
            }
        }
        assert(after[0] == before[0]);
        assert(after[after.len() - 1] == before[before.len() - 1]);
        assert(after[b] == before[a]);
        assert(compound_ok(placed(base, ins, upto), b, parts, syllables, omit));
    }
}

/// The draws of one insertion.
#[derive(Clone, Copy, Debug, PartialEq, Eq, Structural)]
pub struct StepDraws {
    /// The draw that fell below the chance and let the insertion happen.
    pub go: u64,
    /// Zero or one, for the side.
    pub side: u64,
    /// One to a hundred, for the cluster.
    pub cluster: u64,
    /// The index of the syllable that was drawn.
    pub pick: usize,
    /// The draw by which the chance shrinks afterwards.
    pub decay: u64,
}

/// All the draws of one name. An atomic name reads `shape` and `whole`, a
/// compound name everything but `whole`.
#[derive(Clone, Debug, PartialEq, Eq)]
pub struct NameDraws {
    pub shape: u64,
    /// The index of the part that is the whole name.
    pub whole: usize,
    pub first: usize,
    pub second: usize,
    pub steps: Vec<StepDraws>,
    /// The draw that did not fall below the chance and ended the
    /// insertions.
    pub stop: u64,
}

pub ghost struct DrawsView {
    pub shape: u64,
    pub whole: usize,
    pub first: usize,
    pub second: usize,
    pub steps: Seq<StepDraws>,
    pub stop: u64,
}

impl View for NameDraws {
    type V = DrawsView;

    open spec fn view(&self) -> DrawsView {
        DrawsView {
            shape: self.shape,
            whole: self.whole,
            first: self.first,
            second: self.second,
            steps: self.steps@,
            stop: self.stop,
        }
    }
}

/// The views of a list of draws.
pub open spec fn draws_views(v: Seq<NameDraws>) -> Seq<DrawsView> {
    Seq::new(v.len(), |i: int| v[i]@)
}

/// The chance of a further insertion after the first `upto` steps.
pub open spec fn chance_after(length: u64, steps: Seq<StepDraws>, upto: int) -> u64
    decreases upto,
{
    if upto <= 0 {
        insertion_chance(length)
    } else {
        shrunk(chance_after(length, steps, upto - 1), steps[upto - 1].decay) as u64
    }
}

/// The pool that a step draws its syllable from.
pub open spec fn step_pool(st: StepDraws, first: SegmentView, second: SegmentView) -> PoolKind {
    pool_for(
        side_for(st.side),
        st.cluster <= CLUSTER_PERCENT,
        ends_closed(first.text),
        begins_closed(second.text),
    )
}

/// Whether a step is one that the sampling can make: its first draw fell
/// below the chance, and its syllable has a positive weight in the pool
/// that its side and the two parts call for.
pub open spec fn step_fits(
    st: StepDraws,
    chance: u64,
    first: SegmentView,
    second: SegmentView,
    syllables: Seq<SegmentView>,
    omit: bool,
) -> bool {
    &&& 1 <= st.go < chance
    &&& st.pick < syllables.len()
    &&& weight_of(step_pool(st, first, second), syllables[st.pick as int], omit) > 0
}

/// Whether the indices that the draws hold are in range.
pub open spec fn draws_in_range(
    d: DrawsView,
    parts: Seq<SegmentView>,
    syllables: Seq<SegmentView>,
    o: NameGenOptions,
) -> bool {
    match shape_for(o.length, d.shape) {
        Shape::Atomic => d.whole < parts.len(),
        Shape::Compound => {
            &&& d.first < parts.len()
            &&& d.second < parts.len()
            &&& forall|k: int| 0 <= k < d.steps.len() ==> (#[trigger] d.steps[k]).pick < syllables.len()
        },
    }
}

/// Whether the draws are ones that the sampling can make: every part and
/// syllable has a positive weight in its pool, every step happened on a
/// draw below the chance, and the last draw was not below it.
pub open spec fn draws_fit(
    d: DrawsView,
    parts: Seq<SegmentView>,
    syllables: Seq<SegmentView>,
    o: NameGenOptions,
) -> bool {
    &&& 1 <= d.shape <= UNIT
    &&& match shape_for(o.length, d.shape) {
        Shape::Atomic => d.whole < parts.len() && weight_of(
            PoolKind::Part,
            parts[d.whole as int],
            o.omit_reserved,
        ) > 0,
        Shape::Compound => {
            &&& d.first < parts.len()
            &&& d.second < parts.len()
            &&& weight_of(PoolKind::First, parts[d.first as int], o.omit_reserved) > 0
            &&& weight_of(PoolKind::Second, parts[d.second as int], o.omit_reserved) > 0
            &&& forall|k: int|
                0 <= k < d.steps.len() ==> step_fits(
                    #[trigger] d.steps[k],
                    chance_after(o.length, d.steps, k),
                    parts[d.first as int],
                    parts[d.second as int],
                    syllables,
                    o.omit_reserved,
                )
            &&& 1 <= d.stop <= UNIT
            &&& d.stop >= chance_after(o.length, d.steps, d.steps.len() as int)
        },
    }
}

/// The insertions that the steps stand for.
pub open spec fn planned(steps: Seq<StepDraws>, syllables: Seq<SegmentView>) -> Seq<InsertionView> {
    Seq::new(
        steps.len(),
        |k: int| InsertionView { side: side_for(steps[k].side), segment: syllables[steps[k].pick as int] },
    )
}

/// The segments of the name that the draws give.
pub open spec fn composed(
    d: DrawsView,
    parts: Seq<SegmentView>,
    syllables: Seq<SegmentView>,
    o: NameGenOptions,
) -> Seq<SegmentView> {
    match shape_for(o.length, d.shape) {
        Shape::Atomic => seq![parts[d.whole as int]],
        Shape::Compound => placed(
            backbone(parts[d.first as int], parts[d.second as int]),
            planned(d.steps, syllables),
            d.steps.len() as int,
        ),
    }
}

/// The name that the draws give.
pub open spec fn composed_name(
    d: DrawsView,
    parts: Seq<SegmentView>,
    syllables: Seq<SegmentView>,
    o: NameGenOptions,
) -> GeneratedView {
    GeneratedView {
        elements: composed(d, parts, syllables, o),
        display: capitalized(
            rendered(composed(d, parts, syllables, o), composed(d, parts, syllables, o).len() as int),
        ),
    }
}

/// Every insertion makes the sequence one longer.
proof fn lemma_placed_len(els: Seq<SegmentView>, ins: Seq<InsertionView>, upto: int)
    requires
        0 <= upto,
        els.len() >= 2,
    ensures
        placed(els, ins, upto).len() == els.len() + upto,
    decreases upto,
{
    if upto > 0 {
        lemma_placed_len(els, ins, upto - 1);
    }
}

/// The chance after some steps does not depend on later steps.
proof fn lemma_chance_prefix(length: u64, a: Seq<StepDraws>, b: Seq<StepDraws>, upto: int)
    requires
        upto <= a.len(),
        upto <= b.len(),
        forall|k: int| 0 <= k < upto ==> a[k] == b[k],
    ensures
        chance_after(length, a, upto) == chance_after(length, b, upto),
    decreases upto,
{
    if upto > 0 {
        lemma_chance_prefix(length, a, b, upto - 1);
    }
}

/// The name of draws that the sampling can make is a name as `name_ok`
/// describes it.
pub proof fn lemma_composed_ok(
    d: DrawsView,
    parts: Seq<SegmentView>,
    syllables: Seq<SegmentView>,
    o: NameGenOptions,
)
    requires
        draws_fit(d, parts, syllables, o),
    ensures
        name_ok(composed_name(d, parts, syllables, o), parts, syllables, o),
{
    let omit = o.omit_reserved;
    let els = composed(d, parts, syllables, o);
    match shape_for(o.length, d.shape) {
        Shape::Atomic => {
            assert(els[0] == parts[d.whole as int]);
            assert(member(els[0], parts));
            assert(atomic_ok(els, parts, omit));
            assert(o.length < 2 * UNIT);
        },
        Shape::Compound => {
            let first = parts[d.first as int];
            let second = parts[d.second as int];
            let ins = planned(d.steps, syllables);
            assert(member(first, parts));
            assert(member(second, parts));
            assert forall|k: int| 0 <= k < ins.len() implies drawn(
                (#[trigger] ins[k]).segment,
                PoolKind::Middle,
                syllables,
                omit,
            ) by {
                let st = d.steps[k];
                assert(step_fits(
                    st,
                    chance_after(o.length, d.steps, k),
                    first,
                    second,
                    syllables,
                    omit,
                ));
                assert(ins[k].segment == syllables[st.pick as int]);
                assert(member(ins[k].segment, syllables));
            }
            assert(ins.len() == d.steps.len());
            lemma_placed_compound(first, second, ins, ins.len() as int, parts, syllables, omit);
            lemma_placed_len(backbone(first, second), ins, ins.len() as int);
            assert(els == placed(backbone(first, second), ins, ins.len() as int));
            assert(els.len() == 3 + d.steps.len());
            assert(exists|a: int| compound_ok(els, a, parts, syllables, omit));
            assert(o.length > UNIT);
            if d.steps.len() == 0 {
                assert(chance_after(o.length, d.steps, 0) == insertion_chance(o.length));
                assert(o.length <= 3 * UNIT);
            }
            if d.steps.len() > 0 {
                assert(chance_after(o.length, d.steps, 0) == insertion_chance(o.length));
                assert(step_fits(
                    d.steps[0],
                    chance_after(o.length, d.steps, 0),
                    first,
                    second,
                    syllables,
                    omit,
                ));
            }
        },
    }
    let n = composed_name(d, parts, syllables, o);
    assert(n.elements == els);
    assert(n.display == capitalized(rendered(n.elements, n.elements.len() as int)));
    if shape_for(o.length, d.shape) == Shape::Compound {
        assert(o.length <= 2 * UNIT + 1 ==> n.elements.len() == 3);
        assert(o.length > 3 * UNIT ==> n.elements.len() >= 4);
        assert(exists|a: int| compound_ok(n.elements, a, parts, syllables, o.omit_reserved));
    }
}

/// Given the same pools, options and draws, the same names come out: a
/// batch is a function of them alone.
pub proof fn lemma_same_draws_same_names(
    a: Seq<GeneratedView>,
    b: Seq<GeneratedView>,
    draws: Seq<DrawsView>,
    parts: Seq<SegmentView>,
    syllables: Seq<SegmentView>,
    o: NameGenOptions,
)
    requires
        a.len() == draws.len(),
        b.len() == draws.len(),
        forall|i: int|
            0 <= i < draws.len() ==> #[trigger] a[i] == composed_name(draws[i], parts, syllables, o),
        forall|i: int|
            0 <= i < draws.len() ==> #[trigger] b[i] == composed_name(draws[i], parts, syllables, o),
    ensures
        a == b,
{
    assert(a =~= b);
}

/// The name that the draws give. The indices among the draws must be in
/// range.
pub fn compose(
    parts: &Vec<NameSegment>,
    syllables: &Vec<NameSegment>,
    options: &NameGenOptions,
    draws: &NameDraws,
) -> (r: GeneratedName)
    requires
        draws_in_range(draws@, segment_views(parts@), segment_views(syllables@), *options),
    ensures
        r@ == composed_name(draws@, segment_views(parts@), segment_views(syllables@), *options),
        draws_fit(draws@, segment_views(parts@), segment_views(syllables@), *options) ==> name_ok(
            r@,
            segment_views(parts@),
            segment_views(syllables@),
            *options,
        ),
{
    let ghost pv = segment_views(parts@);
    let ghost sv = segment_views(syllables@);
    proof {
        if draws_fit(draws@, pv, sv, *options) {
            lemma_composed_ok(draws@, pv, sv, *options);
        }
    }
    assert(draws@.steps == draws.steps@ && sv.len() == syllables.len() && pv.len() == parts.len());
    let els = match choose_shape(options.length, draws.shape) {
        Shape::Atomic => {
            let mut els: Vec<NameSegment> = Vec::new();
            els.push(parts[draws.whole].duplicate());
            assert(segment_views(els@) =~= seq![pv[draws.whole as int]]);
            els
        },
        Shape::Compound => {
            let first = parts[draws.first].duplicate();
            let second = parts[draws.second].duplicate();
            let mut insertions: Vec<Insertion> = Vec::new();
            let mut k: usize = 0;
            while k < draws.steps.len()
                invariant
                    k <= draws.steps.len(),
                    insertions.len() == k,
                    sv == segment_views(syllables@),
                    forall|j: int|
                        0 <= j < draws.steps.len() ==> (#[trigger] draws.steps@[j]).pick
                            < syllables.len(),
                    forall|j: int|
                        0 <= j < k ==> (#[trigger] insertions@[j])@ == planned(
                            draws.steps@,
                            sv,
                        )[j],
                decreases draws.steps.len() - k,
            {
                let st = draws.steps[k];
                let segment = syllables[st.pick].duplicate();
                insertions.push(Insertion { side: choose_side(st.side), segment });
                k += 1;
            }
            assert(insertion_views(insertions@) =~= planned(draws.steps@, sv));
            materialize(first, second, &insertions)
        },
    };
    GeneratedName::bake(els)
}

/// The names that a list of draws gives, one for each.
pub fn compose_all(
    parts: &Vec<NameSegment>,
    syllables: &Vec<NameSegment>,
    options: &NameGenOptions,
    draws: &Vec<NameDraws>,
) -> (r: Vec<GeneratedName>)
    requires
        forall|i: int|
            0 <= i < draws.len() ==> draws_in_range(
                (#[trigger] draws@[i])@,
                segment_views(parts@),
                segment_views(syllables@),
                *options,
            ),
    ensures
        r.len() == draws.len(),
        forall|i: int|
            0 <= i < r.len() ==> (#[trigger] r@[i])@ == composed_name(
                draws@[i]@,
                segment_views(parts@),
                segment_views(syllables@),
                *options,
            ),
        forall|i: int|
            0 <= i < r.len() && draws_fit(
                draws@[i]@,
                segment_views(parts@),
                segment_views(syllables@),
                *options,
            ) ==> name_ok(
                (#[trigger] r@[i])@,
                segment_views(parts@),
                segment_views(syllables@),
                *options,
            ),
{
    let mut names: Vec<GeneratedName> = Vec::new();
    let mut i: usize = 0;
    while i < draws.len()
        invariant
            i <= draws.len(),
            names.len() == i,
            forall|j: int|
                0 <= j < draws.len() ==> draws_in_range(
                    (#[trigger] draws@[j])@,
                    segment_views(parts@),
                    segment_views(syllables@),
                    *options,
                ),
            forall|j: int|
                0 <= j < i ==> (#[trigger] names@[j])@ == composed_name(
                    draws@[j]@,
                    segment_views(parts@),
                    segment_views(syllables@),
                    *options,
                ),
            forall|j: int|
                0 <= j < i && draws_fit(
                    draws@[j]@,
                    segment_views(parts@),
                    segment_views(syllables@),
                    *options,
                ) ==> name_ok(
                    (#[trigger] names@[j])@,
                    segment_views(parts@),
                    segment_views(syllables@),
                    *options,
                ),
        decreases draws.len() - i,
    {
        let name = compose(parts, syllables, options, &draws[i]);
        names.push(name);
        i += 1;
    }
    names
}

/// Draws what one name takes from `rng`.
pub fn draw_name(
    parts: &Vec<NameSegment>,
    syllables: &Vec<NameSegment>,
    pools: &Pools,
    options: &NameGenOptions,
    rng: &mut StdRng,
) -> (r: NameDraws)
    requires
        pools.built_from(segment_views(parts@), segment_views(syllables@), options.omit_reserved),
        first_failure(
            segment_views(parts@),
            segment_views(syllables@),
            options.length,
            options.omit_reserved,
        ) is None,
    ensures
        draws_fit(r@, segment_views(parts@), segment_views(syllables@), *options),
        draws_in_range(r@, segment_views(parts@), segment_views(syllables@), *options),
{
    let ghost pv = segment_views(parts@);
    let ghost sv = segment_views(syllables@);
    let omit = options.omit_reserved;
    let length = options.length;
    let shape = draw_in(rng, 1, UNIT);
    match choose_shape(length, shape) {
        Shape::Atomic => {
            let whole = draw_weighted(rng, &pools.part);
            NameDraws { shape, whole, first: 0, second: 0, steps: Vec::new(), stop: 0 }
        },
        Shape::Compound => {
            let first = draw_weighted(rng, &pools.first);
            let second = draw_weighted(rng, &pools.second);
            let first_closed = ends_with_consonant(parts[first].str.as_str());
            let second_closed = starts_with_consonant(parts[second].str.as_str());
            let mut steps: Vec<StepDraws> = Vec::new();
            let mut p = first_chance(length);
            let mut t = draw_in(rng, 1, UNIT);
            while t < p
                invariant
                    1 <= t <= UNIT,
                    first < parts.len(),
                    second < parts.len(),
                    first_closed == ends_closed(pv[first as int].text),
                    second_closed == begins_closed(pv[second as int].text),
                    pv == segment_views(parts@),
                    sv == segment_views(syllables@),
                    pools.built_from(pv, sv, omit),
                    first_failure(pv, sv, length, omit) is None,
                    p == chance_after(length, steps@, steps.len() as int),
                    p <= insertion_chance(length),
                    forall|k: int|
                        0 <= k < steps.len() ==> step_fits(
                            #[trigger] steps@[k],
                            chance_after(length, steps@, k),
                            pv[first as int],
                            pv[second as int],
                            sv,
                            omit,
                        ),
                decreases p,
            {
                let side = draw_in(rng, 0, 1);
                let cluster = draw_in(rng, 1, 100);
                let kind = insertion_pool(
                    choose_side(side),
                    allows_cluster(cluster),
                    first_closed,
                    second_closed,
                );
                let pick = match kind {
                    PoolKind::OpenStart => draw_weighted(rng, &pools.open_start),
                    PoolKind::OpenEnd => draw_weighted(rng, &pools.open_end),
                    _ => draw_weighted(rng, &pools.middle),
                };
                let decay = draw_in(rng, 1, UNIT);
                let ghost before = steps@;
                let st = StepDraws { go: t, side, cluster, pick, decay };
                steps.push(st);
                p = shrink(p, decay);
                proof {
                    let after = steps@;
                    assert forall|k: int| 0 <= k < after.len() implies step_fits(
                        #[trigger] after[k],
                        chance_after(length, after, k),
                        pv[first as int],
                        pv[second as int],
                        sv,
                        omit,
                    ) by {
                        lemma_chance_prefix(length, before, after, k);
                        if k < before.len() {
                            assert(after[k] == before[k]);
                        }
                    }
                    lemma_chance_prefix(length, before, after, before.len() as int);
                }
                t = draw_in(rng, 1, UNIT);
            }
            NameDraws { shape, whole: 0, first, second, steps, stop: t }
        },
    }
}

/// Assembles one name from draws of `rng`.
pub fn assemble(
    parts: &Vec<NameSegment>,
    syllables: &Vec<NameSegment>,
    pools: &Pools,
    options: &NameGenOptions,
    rng: &mut StdRng,
) -> (r: GeneratedName)
    requires
        pools.built_from(segment_views(parts@), segment_views(syllables@), options.omit_reserved),
        first_failure(
            segment_views(parts@),
            segment_views(syllables@),
            options.length,
            options.omit_reserved,
        ) is None,
    ensures
        name_ok(r@, segment_views(parts@), segment_views(syllables@), *options),
{
    let draws = draw_name(parts, syllables, pools, options, rng);
    compose(parts, syllables, options, &draws)
}

/// Generates `options.amount` names from the scored parts and syllables,
/// with draws from `rng`. A request for no names succeeds with none. Any
/// other request fails, before any name is made, where a pool that the
/// length calls for cannot be sampled; else it returns the whole batch.
pub fn generate_names_from_parts(
    parts: &Vec<NameSegment>,
    syllables: &Vec<NameSegment>,
    options: &NameGenOptions,
    rng: &mut StdRng,
) -> (r: Result<Vec<GeneratedName>, GenError>)
    ensures
        options.amount == 0 ==> r is Ok,
        options.amount > 0 ==> (r is Err <==> first_failure(
            segment_views(parts@),
            segment_views(syllables@),
            options.length,
            options.omit_reserved,
        ) is Some),
        r matches Err(e) ==> Some(e) == first_failure(
            segment_views(parts@),
            segment_views(syllables@),
            options.length,
            options.omit_reserved,
        ),
        r matches Ok(names) ==> names.len() == options.amount && forall|i: int|
            0 <= i < names.len() ==> name_ok(
                (#[trigger] names@[i])@,
                segment_views(parts@),
                segment_views(syllables@),
                *options,
            ),
{
    if options.amount == 0 {
        return Ok(Vec::new());
    }
    let pools = Pools::build(parts, syllables, options.omit_reserved);
    match pools.check(options.length) {
        Some(e) => {
            return Err(e);
        },
        None => {},
    }
    let mut draws: Vec<NameDraws> = Vec::new();
    let mut i: usize = 0;
    while i < options.amount
        invariant
            i <= options.amount,
            draws.len() == i,
            pools.built_from(
                segment_views(parts@),
                segment_views(syllables@),
                options.omit_reserved,
            ),
            first_failure(
                segment_views(parts@),
                segment_views(syllables@),
                options.length,
                options.omit_reserved,
            ) is None,
            forall|j: int|
                0 <= j < i ==> draws_fit(
                    (#[trigger] draws@[j])@,
                    segment_views(parts@),
                    segment_views(syllables@),
                    *options,
                ) && draws_in_range(
                    draws@[j]@,
                    segment_views(parts@),
                    segment_views(syllables@),
                    *options,
                ),
        decreases options.amount - i,
    {
        let d = draw_name(parts, syllables, &pools, options, rng);
        draws.push(d);
        i += 1;
    }
    let names = compose_all(parts, syllables, options, &draws);
    Ok(names)
}

/// With the reserved parts left out, no part of a generated name is one of
/// them.
pub proof fn lemma_reserved_left_out(
    n: GeneratedView,
    parts: Seq<SegmentView>,
    syllables: Seq<SegmentView>,
    o: NameGenOptions,
    k: int,
)
    requires
        name_ok(n, parts, syllables, o),
        o.omit_reserved,
        0 <= k < n.elements.len(),
        n.elements[k].kind == SegmentKind::Part,
    ensures
        !is_reserved(n.elements[k].text),
{
    if atomic_ok(n.elements, parts, o.omit_reserved) {
    } else {
        let a = choose|a: int| compound_ok(n.elements, a, parts, syllables, o.omit_reserved);
        if 0 < k < n.elements.len() - 1 && k != a {
            assert(drawn(n.elements[k], PoolKind::Middle, syllables, o.omit_reserved));
        }
    }
}

/// With a length of one or less, every generated name is a single part
/// and holds no separator.
pub proof fn lemma_short_is_atomic(
    n: GeneratedView,
    parts: Seq<SegmentView>,
    syllables: Seq<SegmentView>,
    o: NameGenOptions,
)
    requires
        name_ok(n, parts, syllables, o),
        o.length <= UNIT,
    ensures
        n.elements.len() == 1,
        n.elements[0].kind == SegmentKind::Part,
        forall|k: int|
            0 <= k < n.elements.len() ==> (#[trigger] n.elements[k]).kind
                != SegmentKind::Apostrophe,
{
}

} // verus!
