//! Tallies: what each syllable and each part has collected, by role and by
//! gender, and the scores that follow from it.

use vstd::prelude::*;
use vstd::pervasive::VecAdditionalExecFns;
use crate::data_processing::{Gender, PartView, Position, UNIT};

verus! {

/// The role in which a segment occurs in a name. A name that stands alone
/// as a part occurs at the start and at the end at once.
#[derive(Clone, Copy, Debug, PartialEq, Eq, Structural)]
pub enum Role {
    Start,
    Middle,
    End,
    Both,
}

/// One occurrence: the index of the name it comes from, and the credit it
/// carries, the fraction `num / den`.
#[derive(Clone, Copy, Debug, PartialEq, Eq, Structural)]
pub struct Contribution {
    pub name: usize,
    pub num: u64,
    pub den: u64,
}

/// A credit in fixed point, rounded down.
pub open spec fn credit_units(c: Contribution) -> nat {
    if c.den == 0 {
        0
    } else {
        (c.num as nat * UNIT as nat) / (c.den as nat)
    }
}

/// The sum of the credits of a list, in fixed point.
pub open spec fn score(list: Seq<Contribution>) -> nat
    decreases list.len(),
{
    if list.len() == 0 {
        0
    } else {
        score(list.drop_last()) + credit_units(list.last())
    }
}

/// Half credits that one occurrence in a name of gender `g` adds to the male
/// side: a male name counts whole, an unknown one half.
pub open spec fn male_halves(g: Gender) -> nat {
    match g {
        Gender::Male => 2,
        Gender::Female => 0,
        Gender::Unknown => 1,
    }
}

/// Half credits that one occurrence adds to the female side.
pub open spec fn female_halves(g: Gender) -> nat {
    match g {
        Gender::Male => 0,
        Gender::Female => 2,
        Gender::Unknown => 1,
    }
}

/// The role of a part entry.
pub open spec fn part_role(p: Position) -> Role {
    match p {
        Position::First => Role::Start,
        Position::Second => Role::End,
        Position::Lone => Role::Both,
    }
}

/// The numerator of the credit of a part entry in each role it has, over the
/// number of hypotheses of its name: both halves of a split carry `2 / h`, a
/// lone entry `1 / h` at the start and `1 / h` at the end.
pub open spec fn part_share(p: Position) -> u64 {
    match p {
        Position::First => 2,
        Position::Second => 2,
        Position::Lone => 1,
    }
}

/// How many credits one occurrence in a role carries: one at the start
/// and one at the end for `Both`, else one.
pub open spec fn role_count(r: Role) -> nat {
    if r == Role::Both {
        2
    } else {
        1
    }
}

/// The numerators of all the credit that a part entry carries, over all
/// its roles.
pub open spec fn entry_share(p: Position) -> nat {
    part_share(p) as nat * role_count(part_role(p))
}

/// The numerators of all the credit of a list of part entries.
pub open spec fn total_share(parts: Seq<PartView>) -> nat
    decreases parts.len(),
{
    if parts.len() == 0 {
        0
    } else {
        total_share(parts.drop_last()) + entry_share(parts.last().position)
    }
}

/// However many entries a list has, their shares add up to twice their
/// number.
pub proof fn lemma_total_share(parts: Seq<PartView>)
    ensures
        total_share(parts) == 2 * parts.len(),
    decreases parts.len(),
{
    if parts.len() > 0 {
        lemma_total_share(parts.drop_last());
    }
}

pub fn role_of(p: Position) -> (r: Role)
    ensures
        r == part_role(p),
{
    match p {
        Position::First => Role::Start,
        Position::Second => Role::End,
        Position::Lone => Role::Both,
    }
}

pub fn share_of(p: Position) -> (r: u64)
    ensures
        r == part_share(p),
{
    match p {
        Position::First => 2,
        Position::Second => 2,
        Position::Lone => 1,
    }
}

/// The role of the syllable at index `i` of `n`: the first is the start,
/// the last of several the end, every other one the middle.
pub open spec fn role_at(i: int, n: int) -> Role {
    if i == 0 {
        Role::Start
    } else if i == n - 1 {
        Role::End
    } else {
        Role::Middle
    }
}

/// What one segment has collected.
#[derive(Debug)]
pub struct SegmentTally {
    pub key: String,
    /// Syllables that the segment covers.
    pub len: usize,
    pub start: Vec<Contribution>,
    pub end: Vec<Contribution>,
    pub middle: Vec<Contribution>,
    /// Male credit, in halves.
    pub male: u128,
    /// Female credit, in halves.
    pub female: u128,
}

pub ghost struct TallyView {
    pub key: Seq<char>,
    pub len: nat,
    pub start: Seq<Contribution>,
    pub end: Seq<Contribution>,
    pub middle: Seq<Contribution>,
    pub male: nat,
    pub female: nat,
}

impl View for SegmentTally {
    type V = TallyView;

    open spec fn view(&self) -> TallyView {
        TallyView {
            key: self.key@,
            len: self.len as nat,
            start: self.start@,
            end: self.end@,
            middle: self.middle@,
            male: self.male as nat,
            female: self.female as nat,
        }
    }
}

/// Every credit of the list is at most two, over a positive denominator, and
/// comes from one of the first `count` names.
pub open spec fn credits_ok(list: Seq<Contribution>, count: nat) -> bool {
    forall|i: int|
        0 <= i < list.len() ==> (#[trigger] list[i]).name < count && list[i].num <= 2
            && list[i].den >= 1
}

impl TallyView {
    pub open spec fn fresh(key: Seq<char>, len: nat) -> TallyView {
        TallyView {
            key,
            len,
            start: Seq::empty(),
            end: Seq::empty(),
            middle: Seq::empty(),
            male: 0,
            female: 0,
        }
    }

    /// The tally after one more occurrence.
    pub open spec fn add(self, role: Role, c: Contribution, g: Gender) -> TallyView {
        TallyView {
            key: self.key,
            len: self.len,
            start: if role == Role::Start || role == Role::Both {
                self.start.push(c)
            } else {
                self.start
            },
            end: if role == Role::End || role == Role::Both {
                self.end.push(c)
            } else {
                self.end
            },
            middle: if role == Role::Middle {
                self.middle.push(c)
            } else {
                self.middle
            },
            male: self.male + male_halves(g),
            female: self.female + female_halves(g),
        }
    }

    /// The occurrences, all roles together.
    pub open spec fn occurrences(self) -> nat {
        self.start.len() + self.end.len() + self.middle.len()
    }

    /// The credits are in order and come from the first `count` names, and
    /// neither gender has more than two halves for each occurrence.
    pub open spec fn wf(self, count: nat) -> bool {
        &&& credits_ok(self.start, count)
        &&& credits_ok(self.end, count)
        &&& credits_ok(self.middle, count)
        &&& self.male <= 2 * self.occurrences()
        &&& self.female <= 2 * self.occurrences()
    }

    /// The overall score fits the type of a score, and the gender ratio
    /// can be computed, in a corpus of `males` male and `females` female
    /// names.
    pub open spec fn fits(self, males: nat, females: nat) -> bool {
        &&& score(self.start) + score(self.end) + score(self.middle) <= u64::MAX
        &&& ratio_fits(self.male, self.female, males, females)
    }
}

impl SegmentTally {
    pub fn fresh(key: String, len: usize) -> (r: SegmentTally)
        ensures
            r@ == TallyView::fresh(key@, len as nat),
    {
        SegmentTally {
            key,
            len,
            start: Vec::new(),
            end: Vec::new(),
            middle: Vec::new(),
            male: 0,
            female: 0,
        }
    }

    /// Records one more occurrence.
    pub(crate) fn add(
        &mut self,
        role: Role,
        c: Contribution,
        g: Gender,
        Ghost(count): Ghost<nat>,
    )
        requires
            old(self)@.wf(count),
            c.name < count,
            c.num <= 2,
            c.den >= 1,
        ensures
            final(self)@ == old(self)@.add(role, c, g),
            final(self)@.wf(count),
    {
        let occurrences: u128 = self.start.len() as u128 + self.end.len() as u128
            + self.middle.len() as u128;
        assert(self.male <= 2 * occurrences && self.female <= 2 * occurrences);
        match g {
            Gender::Male => {
                self.male = self.male + 2;
            },
            Gender::Female => {
                self.female = self.female + 2;
            },
            Gender::Unknown => {
                self.male = self.male + 1;
                self.female = self.female + 1;
            },
        }
        match role {
            Role::Start => {
                self.start.push(c);
            },
            Role::End => {
                self.end.push(c);
            },
            Role::Middle => {
                self.middle.push(c);
            },
            Role::Both => {
                self.start.push(c);
                self.end.push(c);
            },
        }
    }
}

/// The views of a table of tallies.
pub open spec fn tally_views(v: Seq<SegmentTally>) -> Seq<TallyView> {
    Seq::new(v.len(), |i: int| v[i]@)
}

/// Every tally of the table is well formed.
pub open spec fn table_wf(t: Seq<TallyView>, count: nat) -> bool {
    forall|k: int| 0 <= k < t.len() ==> (#[trigger] t[k]).wf(count)
}

/// Every tally of the table fits.
pub open spec fn table_fits(t: Seq<TallyView>, males: nat, females: nat) -> bool {
    forall|k: int| 0 <= k < t.len() ==> (#[trigger] t[k]).fits(males, females)
}

/// The index, from `from` on, of the first tally with this key and
/// length; the table's length where there is none.
pub open spec fn find_from(t: Seq<TallyView>, key: Seq<char>, len: nat, from: int) -> int
    decreases t.len() - from,
{
    if from >= t.len() {
        t.len() as int
    } else if t[from].key == key && t[from].len == len {
        from
    } else {
        find_from(t, key, len, from + 1)
    }
}

/// The table after one more occurrence of the segment `(key, len)`: its
/// tally grows, or a new tally is added at the end for a segment not yet
/// met.
pub open spec fn deposited(
    t: Seq<TallyView>,
    key: Seq<char>,
    len: nat,
    role: Role,
    c: Contribution,
    g: Gender,
) -> Seq<TallyView> {
    let k = find_from(t, key, len, 0);
    if k < t.len() {
        t.update(k, t[k].add(role, c, g))
    } else {
        t.push(TallyView::fresh(key, len).add(role, c, g))
    }
}

/// No two tallies of the table are for the same segment.
pub open spec fn distinct_keys(t: Seq<TallyView>) -> bool {
    forall|i: int, j: int|
        0 <= i < j < t.len() ==> !((#[trigger] t[i]).key == (#[trigger] t[j]).key && t[i].len
            == t[j].len)
}

/// What `find_from` finds is a tally of the segment, and the first one
/// from `from` on.
pub proof fn lemma_find_from(t: Seq<TallyView>, key: Seq<char>, len: nat, from: int)
    requires
        0 <= from <= t.len(),
    ensures
        from <= find_from(t, key, len, from) <= t.len(),
        find_from(t, key, len, from) < t.len() ==> t[find_from(t, key, len, from)].key == key
            && t[find_from(t, key, len, from)].len == len,
        forall|k: int|
            from <= k < find_from(t, key, len, from) ==> !((#[trigger] t[k]).key == key
                && t[k].len == len),
    decreases t.len() - from,
{
    if from < t.len() && !(t[from].key == key && t[from].len == len) {
        lemma_find_from(t, key, len, from + 1);
    }
}

/// Recording an occurrence keeps one tally for each segment: the table
/// stays free of doubles, and it holds the segment afterwards.
pub proof fn lemma_deposited_distinct(
    t: Seq<TallyView>,
    key: Seq<char>,
    len: nat,
    role: Role,
    c: Contribution,
    g: Gender,
)
    requires
        distinct_keys(t),
    ensures
        distinct_keys(deposited(t, key, len, role, c, g)),
        find_from(deposited(t, key, len, role, c, g), key, len, 0) < deposited(
            t,
            key,
            len,
            role,
            c,
            g,
        ).len(),
{
    let d = deposited(t, key, len, role, c, g);
    let k = find_from(t, key, len, 0);
    lemma_find_from(t, key, len, 0);
    let at = if k < t.len() {
        k
    } else {
        t.len() as int
    };
    assert(d[at].key == key && d[at].len == len);
    assert forall|i: int| 0 <= i < d.len() && i != at implies (#[trigger] d[i]).key == t[i].key
        && d[i].len == t[i].len by {}
    assert forall|i: int, j: int| 0 <= i < j < d.len() implies !((#[trigger] d[i]).key == (
    #[trigger] d[j]).key && d[i].len == d[j].len) by {
        if k < t.len() {
            assert(d[i].key == t[i].key && d[i].len == t[i].len);
            assert(d[j].key == t[j].key && d[j].len == t[j].len);
        } else if j < t.len() {
            assert(d[i] == t[i] && d[j] == t[j]);
        } else {
            assert(d[i] == t[i]);
        }
    }
    lemma_find_from(d, key, len, 0);
    if find_from(d, key, len, 0) >= d.len() {
        assert(!(d[at].key == key && d[at].len == len));
    }
}

/// The occurrences of all tallies of a table together.
pub open spec fn total_occurrences(t: Seq<TallyView>) -> nat
    decreases t.len(),
{
    if t.len() == 0 {
        0
    } else {
        total_occurrences(t.drop_last()) + t.last().occurrences()
    }
}

/// Replacing one tally changes the total by the difference of the two.
proof fn lemma_total_update(t: Seq<TallyView>, k: int, v: TallyView)
    requires
        0 <= k < t.len(),
    ensures
        total_occurrences(t.update(k, v)) + t[k].occurrences() == total_occurrences(t)
            + v.occurrences(),
    decreases t.len(),
{
    if k == t.len() - 1 {
        assert(t.update(k, v).drop_last() =~= t.drop_last());
    } else {
        lemma_total_update(t.drop_last(), k, v);
        assert(t.update(k, v).drop_last() =~= t.drop_last().update(k, v));
    }
}

/// Recording an occurrence adds one to the table's total, or two where
/// the segment occurs at the start and at the end at once: nothing is
/// lost and nothing counted twice.
pub proof fn lemma_deposited_occurrences(
    t: Seq<TallyView>,
    key: Seq<char>,
    len: nat,
    role: Role,
    c: Contribution,
    g: Gender,
)
    ensures
        total_occurrences(deposited(t, key, len, role, c, g)) == total_occurrences(t)
            + role_count(role),
{
    let k = find_from(t, key, len, 0);
    lemma_find_from(t, key, len, 0);
    if k < t.len() {
        lemma_total_update(t, k, t[k].add(role, c, g));
    } else {
        assert(t.push(TallyView::fresh(key, len).add(role, c, g)).drop_last() =~= t);
    }
}

/// Records one occurrence of the segment `(key, len)` in the table.
pub(crate) fn deposit(
    table: &mut Vec<SegmentTally>,
    key: &String,
    len: usize,
    role: Role,
    c: Contribution,
    g: Gender,
    Ghost(count): Ghost<nat>,
)
    requires
        table_wf(tally_views(old(table)@), count),
        c.name < count,
        c.num <= 2,
        c.den >= 1,
    ensures
        tally_views(final(table)@) == deposited(
            tally_views(old(table)@),
            key@,
            len as nat,
            role,
            c,
            g,
        ),
        table_wf(tally_views(final(table)@), count),
{
    let ghost t = tally_views(table@);
    let n = table.len();
    let mut k: usize = 0;
    while k < n && !(table[k].key == *key && table[k].len == len)
        invariant
            k <= n,
            n == table.len(),
            t == tally_views(table@),
            find_from(t, key@, len as nat, 0) == find_from(t, key@, len as nat, k as int),
        decreases n - k,
    {
        k += 1;
    }
    if k < n {
        let mut cur = SegmentTally::fresh(String::new(), 0);
        table.set_and_swap(k, &mut cur);
        cur.add(role, c, g, Ghost(count));
        table.set(k, cur);
        proof {
            assert(tally_views(table@) =~= t.update(k as int, t[k as int].add(role, c, g)));
        }
    } else {
        let mut cur = SegmentTally::fresh(key.clone(), len);
        cur.add(role, c, g, Ghost(count));
        table.push(cur);
        proof {
            assert(tally_views(table@) =~= t.push(
                TallyView::fresh(key@, len as nat).add(role, c, g),
            ));
        }
    }
}

/// Every credit of the list is at most two, over a positive denominator.
pub open spec fn credits_bounded(list: Seq<Contribution>) -> bool {
    forall|i: int| 0 <= i < list.len() ==> (#[trigger] list[i]).num <= 2 && list[i].den >= 1
}

/// The score of a list of credits. It is returned in a type that holds
/// the score of any list.
pub fn total_score(list: &Vec<Contribution>) -> (r: u128)
    requires
        credits_bounded(list@),
    ensures
        r == score(list@),
{
    let mut acc: u128 = 0;
    let mut i: usize = 0;
    assert(list@.take(0) =~= Seq::<Contribution>::empty());
    while i < list.len()
        invariant
            i <= list.len(),
            credits_bounded(list@),
            acc == score(list@.take(i as int)),
            acc <= 2 * UNIT * i,
        decreases list.len() - i,
    {
        let c = list[i];
        assert(c.num * UNIT <= 2 * UNIT) by (nonlinear_arith)
            requires
                c.num <= 2,
        ;
        let top: u64 = c.num * UNIT;
        let units: u64 = top / c.den;
        proof {
            assert(list@.take(i + 1).drop_last() =~= list@.take(i as int));
            assert(list@.take(i + 1).last() == c);
            assert(units <= top) by (nonlinear_arith)
                requires
                    units == top / c.den,
                    c.den >= 1,
            ;
            assert(2 * UNIT * i + 2 * UNIT == 2 * UNIT * (i + 1)) by (nonlinear_arith);
            assert(2 * UNIT * i <= 2 * UNIT * 0xffff_ffff_ffff_ffff) by (nonlinear_arith)
                requires
                    i <= 0xffff_ffff_ffff_ffff,
            ;
        }
        acc = acc + units as u128;
        i += 1;
    }
    assert(list@.take(list.len() as int) =~= list@);
    acc
}

/// The share of the male side in a segment's gender credit, after the
/// female side is rescaled by the corpus's ratio of male to female names:
/// `male / (male + female * males / females)`, in fixed point, rounded
/// down. It is one half where the corpus has no male or no female names,
/// and where the segment has no gender credit at all.
pub open spec fn ratio_units(male: nat, female: nat, males: nat, females: nat) -> nat {
    if males == 0 || females == 0 || male + female == 0 {
        (UNIT / 2) as nat
    } else {
        (male * females * (UNIT as nat)) / (male * females + female * males)
    }
}

/// The gender ratio of a segment lies between zero and one, whatever the
/// counts are.
pub proof fn lemma_ratio_in_range(male: nat, female: nat, males: nat, females: nat)
    ensures
        0 <= ratio_units(male, female, males, females) <= UNIT,
{
    if males == 0 || females == 0 || male + female == 0 {
    } else {
        let a = male * females;
        let b = female * males;
        assert(a + b > 0) by (nonlinear_arith)
            requires
                a == male * females,
                b == female * males,
                males > 0,
                females > 0,
                male + female > 0,
        ;
        assert((a * (UNIT as nat)) / (a + b) <= UNIT) by (nonlinear_arith)
            requires
                a >= 0,
                b >= 0,
                a + b > 0,
        ;
    }
}

/// Whether the gender ratio can be computed: the products of the formula
/// fit the widest integer type.
pub open spec fn ratio_fits(male: nat, female: nat, males: nat, females: nat) -> bool {
    males == 0 || females == 0 || male + female == 0 || (male * females * (UNIT as nat)
        <= u128::MAX && male * females + female * males <= u128::MAX)
}

/// The gender ratio of a segment with `male` and `female` half credits, in a
/// corpus of `males` male and `females` female names; none where it cannot
/// be computed.
pub fn gender_ratio(male: u128, female: u128, males: usize, females: usize) -> (r: Option<u64>)
    ensures
        r is Some <==> ratio_fits(male as nat, female as nat, males as nat, females as nat),
        r matches Some(v) ==> v == ratio_units(
            male as nat,
            female as nat,
            males as nat,
            females as nat,
        ) && v <= UNIT,
{
    proof {
        lemma_ratio_in_range(male as nat, female as nat, males as nat, females as nat);
    }
    if males == 0 || females == 0 || (male == 0 && female == 0) {
        return Some(UNIT / 2);
    }
    let fs: u128 = females as u128;
    let ms: u128 = males as u128;
    let ghost a0: nat = male as nat * females as nat;
    let ghost b0: nat = female as nat * males as nat;
    proof {
        assert(a0 * 1_000_000 >= a0) by (nonlinear_arith);
        assert(b0 >= 0 && a0 >= 0);
    }
    let a = match male.checked_mul(fs) {
        Some(a) => a,
        None => {
            return None;
        },
    };
    let top = match a.checked_mul(UNIT as u128) {
        Some(t) => t,
        None => {
            return None;
        },
    };
    let b = match female.checked_mul(ms) {
        Some(b) => b,
        None => {
            return None;
        },
    };
    let den = match a.checked_add(b) {
        Some(d) => d,
        None => {
            return None;
        },
    };
    assert(den > 0) by (nonlinear_arith)
        requires
            den == male * fs + female * ms,
            ms > 0,
            fs > 0,
            male + female > 0,
    ;
    let q: u128 = top / den;
    Some(q as u64)
}

} // verus!
