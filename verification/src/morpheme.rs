//! Plain records of what a morphological analysis engine reports for one input,
//! and the validated list that the rest of the library works on.

use vstd::prelude::*;
use vstd::utf8::encode_utf8;

verus! {

/// How aggressively the engine decomposes compound words: `A` gives the shortest
/// units, `C` the longest.
#[derive(Clone, Copy, Debug, PartialEq, Eq, Structural)]
pub enum Mode {
    A,
    B,
    C,
}

/// Locates a lexical entry: the dictionary it comes from and its number there.
#[derive(Clone, Copy, Debug, PartialEq, Eq, Structural)]
pub struct WordId {
    pub dic: u8,
    pub word: u32,
}

/// One analyzed unit of text, with every field the engine exposes for it.
///
/// `begin` and `end` are byte offsets into the analyzed text, `begin_c` and
/// `end_c` the same boundaries counted in characters.
#[derive(Clone, Debug, PartialEq, Eq)]
pub struct Morpheme {
    pub begin: usize,
    pub end: usize,
    pub begin_c: usize,
    pub end_c: usize,
    pub word_id: WordId,
    pub part_of_speech_id: u16,
    pub part_of_speech: Vec<String>,
    pub surface: String,
    pub dictionary_form: String,
    pub normalized_form: String,
    pub reading_form: String,
    pub dictionary_form_word_id: i32,
    pub a_unit_split: Vec<WordId>,
    pub b_unit_split: Vec<WordId>,
    pub synonym_group_ids: Vec<u32>,
}

/// The mathematical value of a [`Morpheme`].
pub struct MorphemeView {
    pub begin: nat,
    pub end: nat,
    pub begin_c: nat,
    pub end_c: nat,
    pub word_id: WordId,
    pub part_of_speech_id: u16,
    pub part_of_speech: Seq<Seq<char>>,
    pub surface: Seq<char>,
    pub dictionary_form: Seq<char>,
    pub normalized_form: Seq<char>,
    pub reading_form: Seq<char>,
    pub dictionary_form_word_id: i32,
    pub a_unit_split: Seq<WordId>,
    pub b_unit_split: Seq<WordId>,
    pub synonym_group_ids: Seq<u32>,
}

impl View for Morpheme {
    type V = MorphemeView;

    open spec fn view(&self) -> MorphemeView {
        MorphemeView {
            begin: self.begin as nat,
            end: self.end as nat,
            begin_c: self.begin_c as nat,
            end_c: self.end_c as nat,
            word_id: self.word_id,
            part_of_speech_id: self.part_of_speech_id,
            part_of_speech: self.part_of_speech.deep_view(),
            surface: self.surface@,
            dictionary_form: self.dictionary_form@,
            normalized_form: self.normalized_form@,
            reading_form: self.reading_form@,
            dictionary_form_word_id: self.dictionary_form_word_id,
            a_unit_split: self.a_unit_split@,
            b_unit_split: self.b_unit_split@,
            synonym_group_ids: self.synonym_group_ids@,
        }
    }
}

impl MorphemeView {
    /// The byte span is ordered and ends no later than `limit`.
    pub open spec fn span_within(self, limit: nat) -> bool {
        self.begin <= self.end <= limit
    }

    /// The resolved tag sequence has a first tag.
    pub open spec fn has_primary_tag(self) -> bool {
        self.part_of_speech.len() > 0
    }

    /// The surface text as the bytes it is stored in.
    pub open spec fn surface_bytes(self) -> Seq<u8> {
        encode_utf8(self.surface)
    }
}

/// The values of a sequence of records, in order.
pub open spec fn views(records: Seq<Morpheme>) -> Seq<MorphemeView> {
    Seq::new(records.len(), |i: int| records[i]@)
}

/// The mathematical value of a [`MorphemeList`]: the analyzed text and the
/// morphemes found in it.
pub struct ListView {
    pub text: Seq<char>,
    pub morphemes: Seq<MorphemeView>,
}

impl ListView {
    /// The analyzed text as the bytes the offsets count.
    pub open spec fn text_bytes(self) -> Seq<u8> {
        encode_utf8(self.text)
    }

    /// Morpheme `i` lies inside the text and carries a primary tag.
    pub open spec fn sound_at(self, i: int) -> bool {
        &&& self.morphemes[i].span_within(self.text_bytes().len())
        &&& self.morphemes[i].has_primary_tag()
    }

    /// Every morpheme is sound.
    pub open spec fn wf(self) -> bool {
        forall|i: int| 0 <= i < self.morphemes.len() ==> self.sound_at(i)
    }
}

/// The value of the list that holds `text` and `records`.
pub open spec fn analysis(text: Seq<char>, records: Seq<Morpheme>) -> ListView {
    ListView { text, morphemes: views(records) }
}

/// Why a sequence of records is not the analysis of a text.
#[derive(Clone, Copy, Debug, PartialEq, Eq, Structural)]
pub enum ListError {
    /// The byte span of this morpheme is reversed or ends beyond the text.
    SpanOutOfBounds { index: usize },
    /// This morpheme has an empty tag sequence.
    NoPartOfSpeech { index: usize },
}

/// The result of one tokenization pass: the text and its morphemes in order.
///
/// A value of this type only exists for records that are sound: every byte
/// span is ordered and lies inside the text, and every morpheme has a primary
/// tag.
#[derive(Debug, PartialEq, Eq)]
pub struct MorphemeList {
    text: String,
    morphemes: Vec<Morpheme>,
}

impl View for MorphemeList {
    type V = ListView;

    closed spec fn view(&self) -> ListView {
        analysis(self.text@, self.morphemes@)
    }
}

impl MorphemeList {
    #[verifier::type_invariant]
    spec fn sound(&self) -> bool {
        self@.wf()
    }

    /// Checks `morphemes` against `text` and, when every one of them is sound,
    /// keeps both. Otherwise the first unsound morpheme is named, its span
    /// being looked at before its tags.
    pub fn new(text: String, morphemes: Vec<Morpheme>) -> (r: Result<MorphemeList, ListError>)
        ensures
            r is Ok <==> analysis(text@, morphemes@).wf(),
            match r {
                Ok(list) => list@ == analysis(text@, morphemes@),
                Err(ListError::SpanOutOfBounds { index }) => {
                    let v = analysis(text@, morphemes@);
                    &&& index < v.morphemes.len()
                    &&& forall|j: int| 0 <= j < index ==> v.sound_at(j)
                    &&& !v.morphemes[index as int].span_within(v.text_bytes().len())
                },
                Err(ListError::NoPartOfSpeech { index }) => {
                    let v = analysis(text@, morphemes@);
                    &&& index < v.morphemes.len()
                    &&& forall|j: int| 0 <= j < index ==> v.sound_at(j)
                    &&& v.morphemes[index as int].span_within(v.text_bytes().len())
                    &&& !v.morphemes[index as int].has_primary_tag()
                },
            },
    {
        let limit: usize = text.as_str().as_bytes().len();
        let ghost v = analysis(text@, morphemes@);
        let mut i: usize = 0;
        while i < morphemes.len()
            invariant
                i <= morphemes@.len(),
                limit == v.text_bytes().len(),
                v == analysis(text@, morphemes@),
                forall|j: int| 0 <= j < i ==> v.sound_at(j),
            decreases morphemes@.len() - i,
        {
            let m = &morphemes[i];
            if m.begin > m.end || m.end > limit {
                assert(!v.sound_at(i as int));
                return Err(ListError::SpanOutOfBounds { index: i });
            }
            if m.part_of_speech.len() == 0 {
                assert(!v.sound_at(i as int));
                return Err(ListError::NoPartOfSpeech { index: i });
            }
            i += 1;
        }
        Ok(MorphemeList { text, morphemes })
    }

    /// The number of morphemes.
    pub fn len(&self) -> (n: usize)
        ensures
            n == self@.morphemes.len(),
    {
        self.morphemes.len()
    }

    /// Whether the analysis found no morpheme at all.
    pub fn is_empty(&self) -> (b: bool)
        ensures
            b == (self@.morphemes.len() == 0),
    {
        self.morphemes.len() == 0
    }

    /// The morpheme at position `i`. Its byte span is ordered and lies
    /// inside the text, and it has a primary tag.
    pub fn get(&self, i: usize) -> (m: &Morpheme)
        requires
            i < self@.morphemes.len(),
        ensures
            m@ == self@.morphemes[i as int],
            m@.span_within(self@.text_bytes().len()),
            m@.has_primary_tag(),
    {
        proof {
            use_type_invariant(self);
            assert(self@.sound_at(i as int));
        }
        &self.morphemes[i]
    }

    /// The analyzed text.
    pub fn surface(&self) -> (s: &str)
        ensures
            s@ == self@.text,
    {
        self.text.as_str()
    }
}

} // verus!
