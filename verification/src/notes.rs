//! The note record itself and its mathematical view.

use vstd::prelude::*;
use vstd::multiset::Multiset;

verus! {

/// Mathematical view of a stored note: the identifier as an unbounded
/// integer, the two text fields as character sequences, and the completion
/// flag.
pub struct NoteView {
    pub id: int,
    pub name: Seq<char>,
    pub text: Seq<char>,
    pub completed: bool,
}

/// A single tracked item: a store-assigned identifier, a name label, a
/// free-text body and a completion flag.
#[derive(Debug)]
pub struct Note {
    pub id: i32,
    pub name: String,
    pub text: String,
    pub completed: bool,
}

impl View for Note {
    type V = NoteView;

    open spec fn view(&self) -> NoteView {
        NoteView {
            id: self.id as int,
            name: self.name@,
            text: self.text@,
            completed: self.completed,
        }
    }
}

impl PartialEq for Note {
    fn eq(&self, other: &Note) -> (r: bool) {
        self.id == other.id && self.name == other.name && self.text == other.text
            && self.completed == other.completed
    }
}

impl vstd::std_specs::cmp::PartialEqSpecImpl for Note {
    open spec fn obeys_eq_spec() -> bool {
        true
    }

    open spec fn eq_spec(&self, other: &Note) -> bool {
        self@ == other@
    }
}

/// Lexicographic order on character sequences from position `i` on,
/// comparing characters by their scalar values; a proper prefix precedes
/// its extensions.
pub open spec fn seq_char_le_from(a: Seq<char>, b: Seq<char>, i: int) -> bool
    decreases a.len() - i,
    when 0 <= i <= a.len() && i <= b.len()
{
    if i == a.len() {
        true
    } else if i == b.len() {
        false
    } else if a[i] != b[i] {
        a[i] < b[i]
    } else {
        seq_char_le_from(a, b, i + 1)
    }
}

/// Lexicographic order on whole character sequences.
pub open spec fn seq_char_le(a: Seq<char>, b: Seq<char>) -> bool {
    seq_char_le_from(a, b, 0)
}

proof fn lemma_seq_char_le_total(a: Seq<char>, b: Seq<char>, i: int)
    requires
        0 <= i <= a.len(),
        i <= b.len(),
    ensures
        seq_char_le_from(a, b, i) || seq_char_le_from(b, a, i),
    decreases a.len() - i,
{
    if i < a.len() && i < b.len() && a[i] == b[i] {
        lemma_seq_char_le_total(a, b, i + 1);
    }
}

proof fn lemma_seq_char_le_trans(a: Seq<char>, b: Seq<char>, c: Seq<char>, i: int)
    requires
        0 <= i <= a.len(),
        i <= b.len(),
        i <= c.len(),
        seq_char_le_from(a, b, i),
        seq_char_le_from(b, c, i),
    ensures
        seq_char_le_from(a, c, i),
    decreases a.len() - i,
{
    if i < a.len() && i < b.len() && i < c.len() && a[i] == b[i] && b[i] == c[i] {
        lemma_seq_char_le_trans(a, b, c, i + 1);
    }
}

proof fn lemma_seq_char_le_antisym(a: Seq<char>, b: Seq<char>, i: int)
    requires
        0 <= i <= a.len(),
        i <= b.len(),
        seq_char_le_from(a, b, i),
        seq_char_le_from(b, a, i),
    ensures
        a.len() == b.len(),
        forall|j: int| i <= j < a.len() ==> a[j] == b[j],
    decreases a.len() - i,
{
    if i < a.len() && i < b.len() && a[i] == b[i] {
        lemma_seq_char_le_antisym(a, b, i + 1);
    }
}

/// The canonical ordering of notes: ascending by the composite key
/// `(completed, id, name, text)`, so incomplete notes precede completed
/// ones, and within a completion bucket ids ascend; name and text are
/// tie-breaks kept only for determinism.
pub open spec fn note_le(a: NoteView, b: NoteView) -> bool {
    if a.completed != b.completed {
        !a.completed
    } else if a.id != b.id {
        a.id < b.id
    } else if a.name != b.name {
        seq_char_le(a.name, b.name)
    } else {
        seq_char_le(a.text, b.text)
    }
}

/// The canonical ordering is total.
pub proof fn lemma_note_le_total(a: NoteView, b: NoteView)
    ensures
        note_le(a, b) || note_le(b, a),
{
    if a.completed == b.completed && a.id == b.id {
        if a.name != b.name {
            lemma_seq_char_le_total(a.name, b.name, 0);
        } else {
            lemma_seq_char_le_total(a.text, b.text, 0);
        }
    }
}

/// The canonical ordering is transitive.
pub proof fn lemma_note_le_trans(a: NoteView, b: NoteView, c: NoteView)
    requires
        note_le(a, b),
        note_le(b, c),
    ensures
        note_le(a, c),
{
    if a.completed == b.completed && b.completed == c.completed && a.id == b.id && b.id == c.id {
        if a.name != b.name && b.name != c.name {
            lemma_seq_char_le_trans(a.name, b.name, c.name, 0);
            if a.name == c.name {
                lemma_seq_char_le_antisym(a.name, b.name, 0);
                assert(a.name =~= b.name);
            }
        } else if a.name == b.name && b.name == c.name {
            lemma_seq_char_le_trans(a.text, b.text, c.text, 0);
        }
    }
}

fn str_le_from(a: &str, b: &str, i: usize) -> (r: bool)
    requires
        i <= a@.len(),
        i <= b@.len(),
    ensures
        r == seq_char_le_from(a@, b@, i as int),
    decreases a@.len() - i,
{
    let alen = a.unicode_len();
    let blen = b.unicode_len();
    if i == alen {
        true
    } else if i == blen {
        false
    } else {
        let ca = a.get_char(i);
        let cb = b.get_char(i);
        if ca != cb {
            ca < cb
        } else {
            str_le_from(a, b, i + 1)
        }
    }
}

/// Decide the canonical ordering between two notes.
pub fn note_le_exec(a: &Note, b: &Note) -> (r: bool)
    ensures
        r == note_le(a@, b@),
{
    if a.completed != b.completed {
        !a.completed
    } else if a.id != b.id {
        a.id < b.id
    } else if a.name != b.name {
        str_le_from(a.name.as_str(), b.name.as_str(), 0)
    } else {
        str_le_from(a.text.as_str(), b.text.as_str(), 0)
    }
}

impl PartialOrd for Note {
    fn partial_cmp(&self, other: &Note) -> (r: Option<core::cmp::Ordering>) {
        if self == other {
            Some(core::cmp::Ordering::Equal)
        } else if note_le_exec(self, other) {
            Some(core::cmp::Ordering::Less)
        } else {
            Some(core::cmp::Ordering::Greater)
        }
    }
}

impl vstd::std_specs::cmp::PartialOrdSpecImpl for Note {
    open spec fn obeys_partial_cmp_spec() -> bool {
        true
    }

    open spec fn partial_cmp_spec(&self, other: &Note) -> Option<core::cmp::Ordering> {
        if self@ == other@ {
            Some(core::cmp::Ordering::Equal)
        } else if note_le(self@, other@) {
            Some(core::cmp::Ordering::Less)
        } else {
            Some(core::cmp::Ordering::Greater)
        }
    }
}

/// The views of a sequence of notes.
pub open spec fn note_views(s: Seq<Note>) -> Seq<NoteView> {
    s.map_values(|n: Note| n@)
}

/// Whether a sequence of notes stands in the canonical ordering.
pub open spec fn sorted_notes(s: Seq<NoteView>) -> bool {
    forall|i: int, j: int| 0 <= i < j < s.len() ==> note_le(#[trigger] s[i], #[trigger] s[j])
}

/// Sort notes into the canonical ordering: the result is a permutation of
/// the input, ascending by `(completed, id, name, text)`.
pub fn sort_notes(notes: Vec<Note>) -> (r: Vec<Note>)
    ensures
        sorted_notes(note_views(r@)),
        r@.to_multiset() == notes@.to_multiset(),
{
    broadcast use vstd::seq_lib::group_to_multiset_ensures;

    let ghost orig = notes@;
    let mut input = notes;
    let mut out: Vec<Note> = Vec::new();
    proof {
        assert(note_views(out@) =~= Seq::<NoteView>::empty());
        assert(out@.to_multiset().add(input@.to_multiset()) =~= orig.to_multiset());
    }
    while input.len() > 0
        invariant
            sorted_notes(note_views(out@)),
            out@.to_multiset().add(input@.to_multiset()) == orig.to_multiset(),
        decreases input.len(),
    {
        let ghost input_before = input@;
        let x = input.pop().unwrap();
        proof {
            assert(input_before =~= input@.push(x));
            vstd::seq_lib::to_multiset_build(input@, x);
            assert(input_before.to_multiset() =~= input@.to_multiset().insert(x));
        }
        let mut j: usize = 0;
        while j < out.len() && note_le_exec(&out[j], &x)
            invariant
                j <= out@.len(),
                forall|k: int| 0 <= k < j ==> note_le(#[trigger] note_views(out@)[k], x@),
            decreases out@.len() - j,
        {
            j = j + 1;
        }
        proof {
            if j < out@.len() {
                lemma_note_le_total(note_views(out@)[j as int], x@);
                assert forall|k: int| j < k < out@.len() implies note_le(
                    x@,
                    #[trigger] note_views(out@)[k],
                ) by {
                    lemma_note_le_trans(x@, note_views(out@)[j as int], note_views(out@)[k]);
                }
            }
        }
        let ghost out_before = out@;
        out.insert(j, x);
        proof {
            out_before.insert_ensures(j as int, x);
            assert(note_views(out@) =~= note_views(out_before).insert(j as int, x@)) by {
                note_views(out_before).insert_ensures(j as int, x@);
                assert(out@ =~= out_before.insert(j as int, x));
            }
            note_views(out_before).insert_ensures(j as int, x@);
            assert(sorted_notes(note_views(out@)));
            assert(out@.remove(j as int) =~= out_before);
            assert(out@[j as int] == x);
            vstd::seq_lib::to_multiset_remove(out@, j as int);
            assert(out@.to_multiset().remove(x) =~= out_before.to_multiset());
            assert(out@.contains(x));
            out@.to_multiset_ensures();
            assert(out@.to_multiset().count(x) > 0);
            assert(out@.to_multiset() =~= out_before.to_multiset().insert(x));
            assert(out@.to_multiset().add(input@.to_multiset()) =~= orig.to_multiset());
        }
    }
    proof {
        assert(input@.to_multiset() =~= Multiset::<Note>::empty());
        assert(out@.to_multiset() =~= orig.to_multiset());
    }
    out
}

/// A permutation of notes with pairwise-distinct ids again has
/// pairwise-distinct ids; in particular the output of [`sort_notes`] keeps
/// them, so [`lemma_canonical_grouping`] applies to it.
pub proof fn lemma_permutation_keeps_distinct_ids(a: Seq<Note>, b: Seq<Note>)
    requires
        a.to_multiset() == b.to_multiset(),
        forall|i: int, j: int| 0 <= i < j < a.len() ==> (#[trigger] a[i])@.id != (#[trigger] a[j])@.id,
    ensures
        forall|i: int, j: int| 0 <= i < j < b.len() ==> (#[trigger] b[i])@.id != (#[trigger] b[j])@.id,
{
    assert forall|i: int, j: int|
        0 <= i < j < b.len() implies (#[trigger] b[i])@.id != (#[trigger] b[j])@.id by {
        if b[i]@.id == b[j]@.id {
            if b[i] == b[j] {
                let x = b[i];
                vstd::seq_lib::to_multiset_remove(b, i);
                b.remove_ensures(i);
                assert(b.remove(i)[j - 1] == x);
                assert(b.remove(i).contains(x));
                b.remove(i).to_multiset_ensures();
                assert(b.remove(i).to_multiset().count(x) > 0);
                assert(b.to_multiset().count(x) >= 2);
                assert(a.to_multiset().count(x) >= 2);
                a.to_multiset_ensures();
                assert(a.contains(x));
                let i1 = choose|k: int| 0 <= k < a.len() && a[k] == x;
                vstd::seq_lib::to_multiset_remove(a, i1);
                a.remove_ensures(i1);
                assert(a.remove(i1).to_multiset().count(x) > 0);
                a.remove(i1).to_multiset_ensures();
                assert(a.remove(i1).contains(x));
                let i2 = choose|k: int| 0 <= k < a.remove(i1).len() && a.remove(i1)[k] == x;
                let j2: int = if i2 < i1 {
                    i2
                } else {
                    i2 + 1
                };
                assert(a[j2] == x);
                assert(a[i1]@.id == a[j2]@.id && i1 != j2);
            } else {
                b.to_multiset_ensures();
                assert(b.contains(b[i]));
                assert(b.contains(b[j]));
                a.to_multiset_ensures();
                assert(a.to_multiset().count(b[i]) > 0);
                assert(a.to_multiset().count(b[j]) > 0);
                assert(a.contains(b[i]));
                assert(a.contains(b[j]));
                let i1 = choose|k: int| 0 <= k < a.len() && a[k] == b[i];
                let i2 = choose|k: int| 0 <= k < a.len() && a[k] == b[j];
                assert(i1 != i2);
                assert(a[i1]@.id == a[i2]@.id);
            }
        }
    }
}

/// Within the canonical ordering, all incomplete notes precede all completed
/// notes, and notes of one completion bucket come in strictly ascending id
/// order, provided ids are distinct.
pub proof fn lemma_canonical_grouping(s: Seq<NoteView>)
    requires
        sorted_notes(s),
        forall|i: int, j: int| 0 <= i < j < s.len() ==> (#[trigger] s[i]).id != (#[trigger] s[j]).id,
    ensures
        forall|i: int, j: int|
            0 <= i < j < s.len() ==> !((#[trigger] s[i]).completed && !(#[trigger] s[j]).completed),
        forall|i: int, j: int|
            0 <= i < j < s.len() && (#[trigger] s[i]).completed == (#[trigger] s[j]).completed
                ==> s[i].id < s[j].id,
{
}

} // verus!
