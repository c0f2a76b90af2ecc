//! The recipe and the text forms it takes in the store and in requests.

use crate::text::{chars_of, lowercase, to_lowercase, trim, trim_seq};
use vstd::prelude::*;

verus! {

/// One recipe of the catalogue.
#[derive(Debug, PartialEq, Eq)]
pub struct Recipe {
    pub id: u32,
    pub name: String,
    pub ingredients: Vec<String>,
    pub preparation: Vec<String>,
    pub source: String,
    pub tags: Vec<String>,
}

/// A recipe as plain values.
pub struct RecipeView {
    pub id: u32,
    pub name: Seq<char>,
    pub ingredients: Seq<Seq<char>>,
    pub preparation: Seq<Seq<char>>,
    pub source: Seq<char>,
    pub tags: Seq<Seq<char>>,
}

impl View for Recipe {
    type V = RecipeView;

    open spec fn view(&self) -> RecipeView {
        RecipeView {
            id: self.id,
            name: self.name@,
            ingredients: self.ingredients.deep_view(),
            preparation: self.preparation.deep_view(),
            source: self.source@,
            tags: self.tags.deep_view(),
        }
    }
}

impl DeepView for Recipe {
    type V = RecipeView;

    open spec fn deep_view(&self) -> RecipeView {
        self@
    }
}

impl RecipeView {
    /// The number of rows that the recipe takes in the store: one for the
    /// recipe itself, one for each ingredient and one for each tag.
    pub open spec fn rows(self) -> nat {
        1 + self.ingredients.len() + self.tags.len()
    }
}

/// Copies a list of lines.
pub fn copy_lines(lines: &Vec<String>) -> (copy: Vec<String>)
    ensures
        copy.deep_view() == lines.deep_view(),
{
    let mut copy: Vec<String> = Vec::new();
    let mut i: usize = 0;
    while i < lines.len()
        invariant
            i <= lines.len(),
            copy.deep_view() == lines.deep_view().take(i as int),
        decreases lines.len() - i,
    {
        let ghost before = copy.deep_view();
        copy.push(lines[i].clone());
        assert(copy.deep_view() =~= before.push(lines[i as int]@));
        assert(copy.deep_view() =~= lines.deep_view().take(i as int + 1));
        i += 1;
    }
    assert(lines.deep_view().take(lines.len() as int) =~= lines.deep_view());
    copy
}

impl Recipe {
    /// Copies the recipe.
    pub fn duplicate(&self) -> (copy: Recipe)
        ensures
            copy@ == self@,
    {
        Recipe {
            id: self.id,
            name: self.name.clone(),
            ingredients: copy_lines(&self.ingredients),
            preparation: copy_lines(&self.preparation),
            source: self.source.clone(),
            tags: copy_lines(&self.tags),
        }
    }
}

/// The character that ends each preparation step in the stored form.
pub open spec fn step_delimiter() -> char {
    '|'
}

/// The character that stands in the stored form before a character of a
/// step that would else be read as the delimiter or as this one.
pub open spec fn step_escape() -> char {
    '\\'
}

/// A step as it is stored: each delimiter and each escape character in it
/// with an escape character before it.
pub open spec fn escaped(step: Seq<char>) -> Seq<char>
    decreases step.len(),
{
    if step.len() == 0 {
        Seq::<char>::empty()
    } else if step.last() == step_delimiter() || step.last() == step_escape() {
        escaped(step.drop_last()).push(step_escape()).push(step.last())
    } else {
        escaped(step.drop_last()).push(step.last())
    }
}

/// The stored form of preparation steps: each step escaped and followed by
/// the delimiter. No steps are the empty text.
pub open spec fn join_steps(steps: Seq<Seq<char>>) -> Seq<char>
    decreases steps.len(),
{
    if steps.len() == 0 {
        Seq::<char>::empty()
    } else {
        join_steps(steps.drop_last()) + escaped(steps.last()).push(step_delimiter())
    }
}

/// What has been read of a stored preparation text: the steps that are
/// complete, the step that is being read, and whether the last character
/// was an escape character that waits for the one it stands before.
pub struct Reading {
    pub steps: Seq<Seq<char>>,
    pub step: Seq<char>,
    pub escaping: bool,
}

impl Reading {
    /// Nothing read yet.
    pub open spec fn start() -> Reading {
        Reading { steps: Seq::empty(), step: Seq::empty(), escaping: false }
    }

    /// What has been read after one more character: a character after an
    /// escape character belongs to the step as it is, an escape character
    /// waits, a delimiter completes the step, any other character belongs
    /// to the step.
    pub open spec fn read(self, c: char) -> Reading {
        if self.escaping {
            Reading { step: self.step.push(c), escaping: false, ..self }
        } else if c == step_escape() {
            Reading { escaping: true, ..self }
        } else if c == step_delimiter() {
            Reading { steps: self.steps.push(self.step), step: Seq::empty(), escaping: false }
        } else {
            Reading { step: self.step.push(c), ..self }
        }
    }

    /// What has been read after the characters of `text`.
    pub open spec fn read_all(self, text: Seq<char>) -> Reading
        decreases text.len(),
    {
        if text.len() == 0 {
            self
        } else {
            self.read_all(text.drop_last()).read(text.last())
        }
    }

    /// The steps at the end of the text. An escape character at the very
    /// end stands for itself, and what follows the last delimiter is one
    /// more step unless it is empty.
    pub open spec fn finish(self) -> Seq<Seq<char>> {
        let rest = if self.escaping {
            self.step.push(step_escape())
        } else {
            self.step
        };
        if rest.len() == 0 {
            self.steps
        } else {
            self.steps.push(rest)
        }
    }
}

/// The steps that a stored preparation text holds.
pub open spec fn split_steps(text: Seq<char>) -> Seq<Seq<char>> {
    Reading::start().read_all(text).finish()
}

/// Writes preparation steps as the one text that the store keeps.
pub fn join_preparation(steps: &Vec<String>) -> (text: String)
    ensures
        text@ == join_steps(steps.deep_view()),
{
    let mut text = String::new();
    let mut k: usize = 0;
    assert(steps.deep_view().take(0) =~= Seq::<Seq<char>>::empty());
    while k < steps.len()
        invariant
            k <= steps.len(),
            text@ == join_steps(steps.deep_view().take(k as int)),
        decreases steps.len() - k,
    {
        let step = steps[k].as_str();
        let chars = chars_of(step);
        let n: usize = chars.len();
        let ghost before = text@;
        let mut from: usize = 0;
        let mut i: usize = 0;
        assert(step@.take(0) =~= Seq::<char>::empty());
        assert(text@ + step@.subrange(0, 0) =~= before + escaped(step@.take(0)));
        while i < n
            invariant
                from <= i <= n,
                n == step@.len(),
                chars@ == step@,
                text@ + step@.subrange(from as int, i as int) == before + escaped(
                    step@.take(i as int),
                ),
            decreases n - i,
        {
            let c = chars[i];
            proof {
                assert(step@.take(i as int + 1).drop_last() =~= step@.take(i as int));
                assert(step@.take(i as int + 1).last() == c);
            }
            let ghost run = step@.subrange(from as int, i as int);
            let ghost so_far = text@;
            if c == '|' || c == '\\' {
                text.append(step.substring_char(from, i));
                proof {
                    reveal_strlit("\\");
                    assert("\\"@ =~= seq![step_escape()]);
                }
                text.append("\\");
                from = i;
                proof {
                    assert(step@.subrange(i as int, i as int + 1) =~= seq![c]);
                    assert(text@ + step@.subrange(from as int, i as int + 1) =~= (so_far + run)
                        + seq![step_escape()] + seq![c]);
                    assert(before + escaped(step@.take(i as int + 1)) =~= (before + escaped(
                        step@.take(i as int),
                    )) + seq![step_escape()] + seq![c]);
                }
            } else {
                proof {
                    assert(step@.subrange(from as int, i as int + 1) =~= run.push(c));
                    assert(text@ + run.push(c) =~= (so_far + run).push(c));
                    assert(before + escaped(step@.take(i as int + 1)) =~= (before + escaped(
                        step@.take(i as int),
                    )).push(c));
                }
            }
            i += 1;
        }
        let ghost so_far = text@;
        text.append(step.substring_char(from, n));
        proof {
            reveal_strlit("|");
            assert("|"@ =~= seq![step_delimiter()]);
        }
        text.append("|");
        proof {
            assert(step@.take(n as int) =~= step@);
            let next = steps.deep_view().take(k as int + 1);
            assert(next.drop_last() =~= steps.deep_view().take(k as int));
            assert(next.last() == step@);
            assert(text@ =~= before + escaped(step@).push(step_delimiter()));
        }
        k += 1;
    }
    assert(steps.deep_view().take(steps.len() as int) =~= steps.deep_view());
    text
}

/// Reads the preparation steps out of the text that the store keeps.
pub fn split_preparation(text: &str) -> (steps: Vec<String>)
    ensures
        steps.deep_view() == split_steps(text@),
{
    let chars = chars_of(text);
    let n: usize = chars.len();
    let mut steps: Vec<String> = Vec::new();
    let mut step = String::new();
    let mut escaping = false;
    let mut from: usize = 0;
    let mut i: usize = 0;
    proof {
        assert(text@.take(0) =~= Seq::<char>::empty());
        assert(steps.deep_view() =~= Seq::<Seq<char>>::empty());
        assert(step@ + text@.subrange(0, 0) =~= Seq::<char>::empty());
    }
    while i < n
        invariant
            from <= i <= n,
            n == text@.len(),
            chars@ == text@,
            Reading::start().read_all(text@.take(i as int)) == (Reading {
                steps: steps.deep_view(),
                step: step@ + text@.subrange(from as int, i as int),
                escaping,
            }),
        decreases n - i,
    {
        let c = chars[i];
        let ghost run = text@.subrange(from as int, i as int);
        let ghost read = Reading::start().read_all(text@.take(i as int));
        proof {
            assert(text@.take(i as int + 1).drop_last() =~= text@.take(i as int));
            assert(text@.take(i as int + 1).last() == c);
            assert(Reading::start().read_all(text@.take(i as int + 1)) == read.read(c));
            assert(text@.subrange(from as int, i as int + 1) =~= run.push(c));
        }
        if escaping {
            escaping = false;
            proof {
                assert(step@ + run.push(c) =~= (step@ + run).push(c));
            }
        } else if c == '\\' {
            step.append(text.substring_char(from, i));
            from = i + 1;
            escaping = true;
            proof {
                assert(step@ + text@.subrange(from as int, i as int + 1) =~= step@);
            }
        } else if c == '|' {
            step.append(text.substring_char(from, i));
            let ghost done = steps.deep_view();
            let ghost whole = step@;
            steps.push(step);
            step = String::new();
            from = i + 1;
            proof {
                assert(steps.deep_view() =~= done.push(whole));
                assert(step@ + text@.subrange(from as int, i as int + 1) =~= Seq::<char>::empty());
            }
        } else {
            proof {
                assert(step@ + run.push(c) =~= (step@ + run).push(c));
            }
        }
        i += 1;
    }
    proof {
        assert(text@.take(n as int) =~= text@);
    }
    step.append(text.substring_char(from, n));
    if escaping {
        proof {
            reveal_strlit("\\");
            assert("\\"@ =~= seq![step_escape()]);
        }
        let ghost so_far = step@;
        step.append("\\");
        assert(step@ =~= so_far.push(step_escape()));
    }
    if !step.as_str().is_empty() {
        let ghost done = steps.deep_view();
        let ghost whole = step@;
        steps.push(step);
        assert(steps.deep_view() =~= done.push(whole));
    }
    steps
}

/// Reading one text after another is reading them as one.
pub proof fn lemma_read_all_add(reading: Reading, a: Seq<char>, b: Seq<char>)
    ensures
        reading.read_all(a + b) == reading.read_all(a).read_all(b),
    decreases b.len(),
{
    if b.len() == 0 {
        assert(a + b =~= a);
    } else {
        assert((a + b).drop_last() =~= a + b.drop_last());
        assert((a + b).last() == b.last());
        lemma_read_all_add(reading, a, b.drop_last());
    }
}

/// Reading an escaped step adds the step itself to the step that is being
/// read.
pub proof fn lemma_read_escaped(reading: Reading, step: Seq<char>)
    requires
        !reading.escaping,
    ensures
        reading.read_all(escaped(step)) == (Reading { step: reading.step + step, ..reading }),
    decreases step.len(),
{
    if step.len() == 0 {
        assert(reading.step + step =~= reading.step);
    } else {
        let init = step.drop_last();
        let c = step.last();
        lemma_read_escaped(reading, init);
        let read = reading.read_all(escaped(init));
        assert(reading.step + step =~= (reading.step + init).push(c));
        if c == step_delimiter() || c == step_escape() {
            let with_escape = escaped(init).push(step_escape());
            assert(escaped(step).drop_last() =~= with_escape);
            assert(with_escape.drop_last() =~= escaped(init));
            assert(reading.read_all(with_escape) == read.read(step_escape()));
        } else {
            assert(escaped(step).drop_last() =~= escaped(init));
        }
    }
}

/// Reading the stored form of steps completes each of them and leaves
/// nothing over.
pub proof fn lemma_read_stored(steps: Seq<Seq<char>>)
    ensures
        Reading::start().read_all(join_steps(steps)) == (Reading {
            steps,
            step: Seq::empty(),
            escaping: false,
        }),
    decreases steps.len(),
{
    if steps.len() == 0 {
        assert(steps =~= Seq::<Seq<char>>::empty());
    } else {
        let init = steps.drop_last();
        let last = steps.last();
        lemma_read_stored(init);
        let stored = escaped(last).push(step_delimiter());
        lemma_read_all_add(Reading::start(), join_steps(init), stored);
        let read = Reading::start().read_all(join_steps(init));
        lemma_read_escaped(read, last);
        assert(stored.drop_last() =~= escaped(last));
        assert(Seq::<char>::empty() + last =~= last);
        assert(init.push(last) =~= steps);
    }
}

/// Reading the stored form of preparation steps gives the steps back, in
/// their order and each as it was, whatever they hold and however many
/// they are.
pub proof fn lemma_preparation_round_trip(steps: Seq<Seq<char>>)
    ensures
        split_steps(join_steps(steps)) == steps,
{
    lemma_read_stored(steps);
}

/// A tag in the form in which tags are compared: without white space at
/// either end, and in lower case.
pub open spec fn normalized(tag: Seq<char>) -> Seq<char> {
    lowercase(trim_seq(tag))
}

/// Brings a tag into the form in which tags are compared.
pub fn normalize_tag(tag: &str) -> (normal: String)
    ensures
        normal@ == normalized(tag@),
{
    to_lowercase(trim(tag))
}

/// Each tag of `tags` in its compared form.
pub open spec fn normalized_all(tags: Seq<Seq<char>>) -> Seq<Seq<char>> {
    Seq::new(tags.len(), |i: int| normalized(tags[i]))
}

/// Brings every tag of a list into the form in which tags are compared.
pub fn normalize_tags(tags: &Vec<String>) -> (normal: Vec<String>)
    ensures
        normal.deep_view() == normalized_all(tags.deep_view()),
{
    let mut normal: Vec<String> = Vec::new();
    let mut i: usize = 0;
    while i < tags.len()
        invariant
            i <= tags.len(),
            normal.deep_view() == normalized_all(tags.deep_view()).take(i as int),
        decreases tags.len() - i,
    {
        let ghost before = normal.deep_view();
        normal.push(normalize_tag(tags[i].as_str()));
        assert(normal.deep_view() =~= before.push(normalized(tags[i as int]@)));
        assert(normal.deep_view() =~= normalized_all(tags.deep_view()).take(i as int + 1));
        i += 1;
    }
    assert(normalized_all(tags.deep_view()).take(tags.len() as int) =~= normalized_all(
        tags.deep_view(),
    ));
    normal
}

} // verus!
