//! The state of a session: the loaded corpus, the pools made from it, and
//! the names generated last.

use vstd::prelude::*;
use vstd::string::*;
use rand::rngs::StdRng;
use crate::data_processing::{
    DataError, Name, NameRecord, NameSegment, SegmentKind, UNIT, analysable, concat_range,
    corpus, corpus_error, generate_data, join_range, name_views, part_table, pool_by_start,
    rearranged, record_views, records_of, segment_of, segment_views, segments_from,
    syllable_pool_of, syllable_table,
};
use crate::name_gen::{
    GenError, GeneratedName, NameGenOptions, first_failure, generate_names_from_parts, name_ok,
};
use crate::util::same_text;

verus! {

/// The words for a gender estimate: below 0.05 female, below 0.25 likely
/// female, below 0.35 slightly female, below 0.65 neutral, below 0.75
/// slightly male, below 0.95 likely male, and male from there on.
pub open spec fn gender_label(v: u64) -> Seq<char> {
    if v < 50_000 {
        "female"@
    } else if v < 250_000 {
        "likely female"@
    } else if v < 350_000 {
        "slightly female"@
    } else if v < 650_000 {
        "neutral"@
    } else if v < 750_000 {
        "slightly male"@
    } else if v < 950_000 {
        "likely male"@
    } else {
        "male"@
    }
}

/// Puts a gender estimate, in fixed point, in words.
pub fn gender_text(gender_val: u64) -> (r: String)
    ensures
        r@ == gender_label(gender_val),
{
    let word = if gender_val < 50_000 {
        "female"
    } else if gender_val < 250_000 {
        "likely female"
    } else if gender_val < 350_000 {
        "slightly female"
    } else if gender_val < 650_000 {
        "neutral"
    } else if gender_val < 750_000 {
        "slightly male"
    } else if gender_val < 950_000 {
        "likely male"
    } else {
        "male"
    };
    String::from_str(word)
}

/// Whether some name of the corpus, its syllables joined, reads `text`.
pub open spec fn in_corpus(names: Seq<crate::data_processing::NameView>, text: Seq<char>) -> bool {
    exists|i: int|
        0 <= i < names.len() && concat_range(
            (#[trigger] names[i]).syllables,
            0,
            names[i].syllables.len() as int,
        ) == text
}

/// Whether `text` is a name of the corpus already.
pub fn is_existing(names: &Vec<Name>, text: &str) -> (b: bool)
    ensures
        b == in_corpus(name_views(names@), text@),
{
    let mut i: usize = 0;
    while i < names.len()
        invariant
            i <= names.len(),
            forall|j: int|
                0 <= j < i ==> concat_range(
                    (#[trigger] name_views(names@)[j]).syllables,
                    0,
                    name_views(names@)[j].syllables.len() as int,
                ) != text@,
        decreases names.len() - i,
    {
        let n = &names[i];
        assert(name_views(names@)[i as int] == n@);
        let whole = join_range(&n.syllables, 0, n.syllables.len());
        if same_text(whole.as_str(), text) {
            return true;
        }
        i += 1;
    }
    false
}

pub struct NameApp {
    pub names: Vec<Name>,
    pub syllables: Vec<NameSegment>,
    pub parts: Vec<NameSegment>,
    pub generated: Vec<GeneratedName>,
    /// The generated name whose details are shown, if any. At most one is.
    pub expanded: Option<usize>,
    pub name_gen_settings: NameGenOptions,
    /// The segment picked in the details of the expanded name.
    pub selected_label: Option<usize>,
}

impl Default for NameApp {
    fn default() -> (r: NameApp)
        ensures
            r.names@.len() == 0,
            r.syllables@.len() == 0,
            r.parts@.len() == 0,
            r.generated@.len() == 0,
            r.expanded is None,
            r.name_gen_settings.length == 2 * UNIT,
            r.name_gen_settings.amount == 10,
            r.name_gen_settings.gender_ratio == UNIT / 2,
            !r.name_gen_settings.omit_reserved,
            r.selected_label is None,
    {
        NameApp {
            names: Vec::new(),
            syllables: Vec::new(),
            parts: Vec::new(),
            generated: Vec::new(),
            expanded: None,
            name_gen_settings: NameGenOptions::default(),
            selected_label: None,
        }
    }
}

impl NameApp {
    /// The state at the start of a session: the corpus analysed, nothing
    /// generated yet, and the default settings.
    pub fn new(records: &Vec<NameRecord>) -> (r: Result<NameApp, DataError>)
        ensures
            r is Ok <==> analysable(records@),
            r matches Err(e) ==> e == corpus_error(records@),
            r matches Ok(app) ==> {
                &&& name_views(app.names@) == corpus(records@)
                &&& syllable_pool_of(segment_views(app.syllables@), corpus(records@))
                &&& pool_by_start(segment_views(app.syllables@))
                &&& segment_views(app.parts@) == records_of(
                    part_table(corpus(records@), records.len() as int),
                    SegmentKind::Part,
                    corpus(records@),
                ).map_values(|v| segment_of(v))
                &&& app.generated@.len() == 0
                &&& app.expanded is None
                &&& app.selected_label is None
                &&& app.name_gen_settings.length == 2 * UNIT
                &&& app.name_gen_settings.amount == 10
                &&& app.name_gen_settings.gender_ratio == UNIT / 2
                &&& !app.name_gen_settings.omit_reserved
            },
    {
        let mut app = NameApp::default();
        match app.load(records) {
            Ok(()) => Ok(app),
            Err(e) => Err(e),
        }
    }

    /// Analyses a corpus and replaces names and pools by the result. Where
    /// the corpus is refused, nothing changes.
    pub fn load(&mut self, records: &Vec<NameRecord>) -> (r: Result<(), DataError>)
        ensures
            r is Ok <==> analysable(records@),
            r is Err ==> *final(self) == *old(self),
            r matches Err(e) ==> e == corpus_error(records@),
            r is Ok ==> {
                &&& name_views(final(self).names@) == corpus(records@)
                &&& syllable_pool_of(segment_views(final(self).syllables@), corpus(records@))
                &&& pool_by_start(segment_views(final(self).syllables@))
                &&& segment_views(final(self).parts@) == records_of(
                    part_table(corpus(records@), records.len() as int),
                    SegmentKind::Part,
                    corpus(records@),
                ).map_values(|v| segment_of(v))
                &&& final(self).generated == old(self).generated
                &&& final(self).expanded == old(self).expanded
                &&& final(self).name_gen_settings == old(self).name_gen_settings
                &&& final(self).selected_label == old(self).selected_label
            },
    {
        match generate_data(records) {
            Ok((s, p, n)) => {
                let syllables = segments_from(&s);
                let parts = segments_from(&p);
                proof {
                    assert(corpus(records@).len() == records.len());
                    assert(segment_views(syllables@) =~= record_views(s@).map_values(
                        |v| segment_of(v),
                    ));
                    assert(rearranged(
                        record_views(s@),
                        records_of(
                            syllable_table(corpus(records@), corpus(records@).len() as int),
                            SegmentKind::Syllable,
                            corpus(records@),
                        ),
                    ));
                    assert(syllable_pool_of(segment_views(syllables@), corpus(records@)));
                    assert forall|i: int, j: int|
                        0 <= i < j < syllables@.len() implies segment_views(
                        syllables@,
                    )[i].scores.start >= segment_views(syllables@)[j].scores.start by {
                        assert(record_views(s@)[i].start >= record_views(s@)[j].start);
                    }
                    assert(segment_views(parts@) =~= record_views(p@).map_values(
                        |v| segment_of(v),
                    ));
                }
                self.syllables = syllables;
                self.parts = parts;
                self.names = n;
                Ok(())
            },
            Err(e) => Err(e),
        }
    }

    /// Whether the indices into the generated names are in range.
    pub open spec fn wf(&self) -> bool {
        self.expanded matches Some(i) ==> i < self.generated@.len()
    }

    /// Generates a batch with the current settings and shows it, every name
    /// collapsed. Where generation fails, the names shown before stay.
    pub fn generate(&mut self, rng: &mut StdRng) -> (r: Result<(), GenError>)
        ensures
            final(self).names == old(self).names,
            final(self).syllables == old(self).syllables,
            final(self).parts == old(self).parts,
            final(self).name_gen_settings == old(self).name_gen_settings,
            r is Err ==> *final(self) == *old(self),
            old(self).name_gen_settings.amount == 0 ==> r is Ok,
            old(self).name_gen_settings.amount > 0 ==> (r is Err <==> first_failure(
                segment_views(old(self).parts@),
                segment_views(old(self).syllables@),
                old(self).name_gen_settings.length,
                old(self).name_gen_settings.omit_reserved,
            ) is Some),
            r matches Err(e) ==> Some(e) == first_failure(
                segment_views(old(self).parts@),
                segment_views(old(self).syllables@),
                old(self).name_gen_settings.length,
                old(self).name_gen_settings.omit_reserved,
            ),
            r is Ok ==> {
                &&& final(self).expanded is None
                &&& final(self).selected_label is None
                &&& final(self).generated@.len() == old(self).name_gen_settings.amount
                &&& forall|i: int|
                    0 <= i < final(self).generated@.len() ==> name_ok(
                        (#[trigger] final(self).generated@[i])@,
                        segment_views(old(self).parts@),
                        segment_views(old(self).syllables@),
                        old(self).name_gen_settings,
                    )
            },
    {
        match generate_names_from_parts(&self.parts, &self.syllables, &self.name_gen_settings, rng) {
            Ok(names) => {
                self.generated = names;
                self.expanded = None;
                self.selected_label = None;
                Ok(())
            },
            Err(e) => Err(e),
        }
    }

    /// Shows the details of the name at `i`, or hides them where they are
    /// shown. The picked segment is forgotten, and any other name is
    /// collapsed.
    pub fn toggle_details(&mut self, i: usize)
        requires
            i < old(self).generated@.len(),
        ensures
            final(self).names == old(self).names,
            final(self).syllables == old(self).syllables,
            final(self).parts == old(self).parts,
            final(self).generated == old(self).generated,
            final(self).name_gen_settings == old(self).name_gen_settings,
            final(self).selected_label is None,
            final(self).expanded == if old(self).expanded == Some(i) {
                None
            } else {
                Some(i)
            },
            final(self).wf(),
    {
        let shown = match self.expanded {
            Some(j) => j == i,
            None => false,
        };
        self.expanded = if shown {
            None
        } else {
            Some(i)
        };
        self.selected_label = None;
    }
}

} // verus!
