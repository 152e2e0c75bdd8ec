//! Renames that bring the idea tags of an older archive up to date.

use crate::json::{holds_text, texts_view};
use crate::text::same_text;
use vstd::prelude::*;

verus! {

/// Renames for archives older than version 11.
pub const GREAT_IDEAS_RENAMES: [(&'static str, &'static str); 11] = [
    ("Good", "Good and Evil"),
    ("Custom", "Custom and Convention"),
    ("Pleasure", "Pleasure and Pain"),
    ("Virtue", "Virtue and Vice"),
    ("Sign", "Sign and Symbol"),
    ("War", "War and Peace"),
    ("Tyranny", "Tyranny and Despotism"),
    ("Life", "Life and Death"),
    ("Memory", "Memory and Imagination"),
    ("Necessity", "Necessity and Contingency"),
    ("Universal", "Universal and Particular"),
];

/// Renames for archives older than version 14.
pub const CANON_REMAP_V14: [(&'static str, &'static str); 58] = [
    ("Cause", "Causation"),
    ("Chance", "Probability"),
    ("Liberty", "Freedom"),
    ("Honor", "Status"),
    ("Virtue and Vice", "Virtue"),
    ("Animal", "Life"),
    ("Aristocracy", "Power"),
    ("Monarchy", "Power"),
    ("Oligarchy", "Power"),
    ("Tyranny and Despotism", "Power"),
    ("Constitution", "Institutions"),
    ("Government", "Institutions"),
    ("State", "Institutions"),
    ("Citizen", "Institutions"),
    ("Custom and Convention", "Institutions"),
    ("Courage", "Virtue"),
    ("Dialectic", "Reasoning"),
    ("Induction", "Reasoning"),
    ("Logic", "Reasoning"),
    ("Duty", "Obligation"),
    ("Education", "Learning"),
    ("Experience", "Learning"),
    ("Family", "Community"),
    ("Form", "Beauty"),
    ("God", "the Sacred"),
    ("Religion", "the Sacred"),
    ("Theology", "the Sacred"),
    ("Prophecy", "the Sacred"),
    ("Immortality", "the Sacred"),
    ("Hypothesis", "Evidence"),
    ("Labor", "Productivity"),
    ("Mind", "Consciousness"),
    ("Soul", "Consciousness"),
    ("Sense", "Consciousness"),
    ("Poetry", "Art"),
    ("Property", "Markets"),
    ("Wealth", "Markets"),
    ("Prudence", "Strategy"),
    ("Punishment", "Justice"),
    ("Revolution", "Conflict"),
    ("Rhetoric", "Narrative"),
    ("Sign and Symbol", "Language"),
    ("Sin", "Morality"),
    ("Temperance", "Discipline"),
    ("Wisdom", "Judgment"),
    ("Opinion", "Judgment"),
    ("Will", "Motivation"),
    ("World", "Nature"),
    ("Man", "Identity"),
    ("Good and Evil", "Morality"),
    ("Happiness", "Purpose"),
    ("Knowledge", "Truth"),
    ("Law", "Institutions"),
    ("Life and Death", "Life"),
    ("Memory and Imagination", "Memory"),
    ("Pleasure and Pain", "Emotion"),
    ("Slavery", "Freedom"),
    ("War and Peace", "Conflict"),
];

pub open spec fn pairs_view(pairs: Seq<(&str, &str)>) -> Seq<(Seq<char>, Seq<char>)> {
    pairs.map_values(|p: (&str, &str)| (p.0@, p.1@))
}

/// The name that the first matching rename gives a tag; a tag that none matches keeps its name.
pub open spec fn renamed(tag: Seq<char>, pairs: Seq<(Seq<char>, Seq<char>)>) -> Seq<char>
    decreases pairs.len(),
{
    if pairs.len() == 0 {
        tag
    } else if pairs[0].0 == tag {
        pairs[0].1
    } else {
        renamed(tag, pairs.drop_first())
    }
}

/// Tags renamed in order; a name that occurred before is dropped.
pub open spec fn renamed_tags(
    tags: Seq<Seq<char>>,
    pairs: Seq<(Seq<char>, Seq<char>)>,
) -> Seq<Seq<char>>
    decreases tags.len(),
{
    if tags.len() == 0 {
        Seq::empty()
    } else {
        let before = renamed_tags(tags.drop_last(), pairs);
        let tag = renamed(tags.last(), pairs);
        if before.contains(tag) {
            before
        } else {
            before.push(tag)
        }
    }
}

/// The tags of an archive of this version, up to date.
pub open spec fn current_tags(tags: Seq<Seq<char>>, schema_version: u32) -> Seq<Seq<char>> {
    let tags = if schema_version < 11 {
        renamed_tags(tags, pairs_view(GREAT_IDEAS_RENAMES@))
    } else {
        tags
    };
    if schema_version < 14 {
        renamed_tags(tags, pairs_view(CANON_REMAP_V14@))
    } else {
        tags
    }
}

fn rename(tag: &String, remap: &[(&'static str, &'static str)]) -> (name: String)
    ensures
        name@ == renamed(tag@, pairs_view(remap@)),
{
    let mut i: usize = 0;
    let ghost pairs = pairs_view(remap@);
    assert(pairs.skip(0) =~= pairs);
    while i < remap.len()
        invariant
            i <= remap@.len(),
            pairs == pairs_view(remap@),
            renamed(tag@, pairs) == renamed(tag@, pairs.skip(i as int)),
        decreases remap.len() - i,
    {
        assert(pairs.skip(i as int)[0] == (remap@[i as int].0@, remap@[i as int].1@));
        assert(pairs.skip(i as int).drop_first() =~= pairs.skip(i + 1));
        if same_text(remap[i].0, tag.as_str()) {
            return remap[i].1.to_owned();
        }
        i = i + 1;
    }
    tag.clone()
}

/// Renames tags by one table, in order, and drops what then occurs twice.
pub fn remap_tag_stage(tags: Vec<String>, remap: &[(&'static str, &'static str)]) -> (out: Vec<
    String,
>)
    ensures
        texts_view(out@) == renamed_tags(texts_view(tags@), pairs_view(remap@)),
{
    let mut out: Vec<String> = Vec::new();
    let mut i: usize = 0;
    let ghost all = texts_view(tags@);
    assert(texts_view(out@) =~= renamed_tags(all.take(0), pairs_view(remap@)));
    while i < tags.len()
        invariant
            i <= tags@.len(),
            all == texts_view(tags@),
            texts_view(out@) == renamed_tags(all.take(i as int), pairs_view(remap@)),
        decreases tags.len() - i,
    {
        let name = rename(&tags[i], remap);
        assert(all.take(i + 1).drop_last() =~= all.take(i as int));
        if !holds_text(&out, name.as_str()) {
            let ghost before = texts_view(out@);
            out.push(name);
            assert(texts_view(out@) =~= before.push(name@));
        }
        i = i + 1;
    }
    assert(all.take(all.len() as int) =~= all);
    out
}

/// Brings the tags of an archive of this version up to date.
pub fn remap_tags(tags: Vec<String>, schema_version: u32) -> (out: Vec<String>)
    ensures
        texts_view(out@) == current_tags(texts_view(tags@), schema_version),
{
    let mut tags = tags;
    if schema_version < 11 {
        tags = remap_tag_stage(tags, GREAT_IDEAS_RENAMES.as_slice());
    }
    if schema_version < 14 {
        tags = remap_tag_stage(tags, CANON_REMAP_V14.as_slice());
    }
    tags
}

/// Renaming leaves no tag twice.
pub proof fn law_renamed_tags_distinct(
    tags: Seq<Seq<char>>,
    pairs: Seq<(Seq<char>, Seq<char>)>,
)
    ensures
        renamed_tags(tags, pairs).no_duplicates(),
    decreases tags.len(),
{
    if tags.len() > 0 {
        law_renamed_tags_distinct(tags.drop_last(), pairs);
    }
}

/// Renaming keeps every tag under its new name and invents none.
pub proof fn law_renamed_tags_members(
    tags: Seq<Seq<char>>,
    pairs: Seq<(Seq<char>, Seq<char>)>,
    name: Seq<char>,
)
    ensures
        renamed_tags(tags, pairs).contains(name) <==> exists|i: int|
            0 <= i < tags.len() && renamed(#[trigger] tags[i], pairs) == name,
    decreases tags.len(),
{
    if tags.len() > 0 {
        let before = tags.drop_last();
        law_renamed_tags_members(before, pairs, name);
        let done = renamed_tags(before, pairs);
        let last = renamed(tags.last(), pairs);
        if renamed_tags(tags, pairs).contains(name) {
            if name == last {
                assert(renamed(tags[tags.len() - 1], pairs) == name);
            } else {
                assert(done.contains(name));
                let i = choose|i: int|
                    0 <= i < before.len() && renamed(#[trigger] before[i], pairs) == name;
                assert(tags[i] == before[i]);
            }
        }
        if exists|i: int| 0 <= i < tags.len() && renamed(#[trigger] tags[i], pairs) == name {
            let i = choose|i: int| 0 <= i < tags.len() && renamed(#[trigger] tags[i], pairs) == name;
            if i < before.len() {
                assert(before[i] == tags[i]);
                assert(done.contains(name));
                let k = choose|k: int| 0 <= k < done.len() && done[k] == name;
                assert(renamed_tags(tags, pairs)[k] == name);
            } else if !done.contains(last) {
                assert(renamed_tags(tags, pairs)[done.len() as int] == last);
            }
        }
    }
}

/// An archive of version 14 or later keeps its tags as they are.
pub proof fn law_current_tags_kept(tags: Seq<Seq<char>>, schema_version: u32)
    requires
        schema_version >= 14,
    ensures
        current_tags(tags, schema_version) == tags,
{
}

/// A text by its length and two of its characters: enough to tell the older names of a table of
/// renames from the newer ones.
spec fn print_of(s: Seq<char>) -> (nat, char, char) {
    (s.len(), s[0], s[2])
}

/// The older names of the first renames.
spec fn old_idea(p: (nat, char, char)) -> bool {
    ||| p == (4nat, 'G', 'o')
    ||| p == (6nat, 'C', 's')
    ||| p == (8nat, 'P', 'e')
    ||| p == (6nat, 'V', 'r')
    ||| p == (4nat, 'S', 'g')
    ||| p == (3nat, 'W', 'r')
    ||| p == (7nat, 'T', 'r')
    ||| p == (4nat, 'L', 'f')
    ||| p == (6nat, 'M', 'm')
    ||| p == (9nat, 'N', 'c')
    ||| p == (9nat, 'U', 'i')
}

/// The older names of the second renames.
spec fn old_canon(p: (nat, char, char)) -> bool {
    ||| p == (5nat, 'C', 'u')
    ||| p == (6nat, 'C', 'a')
    ||| p == (7nat, 'L', 'b')
    ||| p == (5nat, 'H', 'n')
    ||| p == (15nat, 'V', 'r')
    ||| p == (6nat, 'A', 'i')
    ||| p == (11nat, 'A', 'i')
    ||| p == (8nat, 'M', 'n')
    ||| p == (9nat, 'O', 'i')
    ||| p == (21nat, 'T', 'r')
    ||| p == (12nat, 'C', 'n')
    ||| p == (10nat, 'G', 'v')
    ||| p == (5nat, 'S', 'a')
    ||| p == (7nat, 'C', 't')
    ||| p == (21nat, 'C', 's')
    ||| p == (7nat, 'C', 'u')
    ||| p == (9nat, 'D', 'a')
    ||| p == (9nat, 'I', 'd')
    ||| p == (5nat, 'L', 'g')
    ||| p == (4nat, 'D', 't')
    ||| p == (9nat, 'E', 'u')
    ||| p == (10nat, 'E', 'p')
    ||| p == (6nat, 'F', 'm')
    ||| p == (4nat, 'F', 'r')
    ||| p == (3nat, 'G', 'd')
    ||| p == (8nat, 'R', 'l')
    ||| p == (8nat, 'T', 'e')
    ||| p == (8nat, 'P', 'o')
    ||| p == (11nat, 'I', 'm')
    ||| p == (10nat, 'H', 'p')
    ||| p == (5nat, 'L', 'b')
    ||| p == (4nat, 'M', 'n')
    ||| p == (4nat, 'S', 'u')
    ||| p == (5nat, 'S', 'n')
    ||| p == (6nat, 'P', 'e')
    ||| p == (6nat, 'W', 'a')
    ||| p == (8nat, 'P', 'u')
    ||| p == (10nat, 'P', 'n')
    ||| p == (10nat, 'R', 'v')
    ||| p == (8nat, 'R', 'e')
    ||| p == (15nat, 'S', 'g')
    ||| p == (3nat, 'S', 'n')
    ||| p == (10nat, 'T', 'm')
    ||| p == (6nat, 'W', 's')
    ||| p == (7nat, 'O', 'i')
    ||| p == (4nat, 'W', 'l')
    ||| p == (5nat, 'W', 'r')
    ||| p == (3nat, 'M', 'n')
    ||| p == (13nat, 'G', 'o')
    ||| p == (9nat, 'H', 'p')
    ||| p == (9nat, 'K', 'o')
    ||| p == (3nat, 'L', 'w')
    ||| p == (14nat, 'L', 'f')
    ||| p == (22nat, 'M', 'm')
    ||| p == (17nat, 'P', 'e')
    ||| p == (7nat, 'S', 'a')
    ||| p == (13nat, 'W', 'r')
}

/// The newer names of the second renames that are older names of the first.
spec fn returning(s: Seq<char>) -> bool {
    s == "Virtue"@ || s == "Life"@ || s == "Memory"@
}

proof fn lemma_old_ideas()
    ensures
        forall|i: int| 0 <= i < GREAT_IDEAS_RENAMES@.len() ==> old_idea(print_of((#[trigger] GREAT_IDEAS_RENAMES@[i]).0@)),
{
    reveal_strlit("Custom");
    reveal_strlit("Good");
    reveal_strlit("Life");
    reveal_strlit("Memory");
    reveal_strlit("Necessity");
    reveal_strlit("Pleasure");
    reveal_strlit("Sign");
    reveal_strlit("Tyranny");
    reveal_strlit("Universal");
    reveal_strlit("Virtue");
    reveal_strlit("War");
    assert(old_idea(print_of(GREAT_IDEAS_RENAMES@[0].0@)));
    assert(old_idea(print_of(GREAT_IDEAS_RENAMES@[1].0@)));
    assert(old_idea(print_of(GREAT_IDEAS_RENAMES@[2].0@)));
    assert(old_idea(print_of(GREAT_IDEAS_RENAMES@[3].0@)));
    assert(old_idea(print_of(GREAT_IDEAS_RENAMES@[4].0@)));
    assert(old_idea(print_of(GREAT_IDEAS_RENAMES@[5].0@)));
    assert(old_idea(print_of(GREAT_IDEAS_RENAMES@[6].0@)));
    assert(old_idea(print_of(GREAT_IDEAS_RENAMES@[7].0@)));
    assert(old_idea(print_of(GREAT_IDEAS_RENAMES@[8].0@)));
    assert(old_idea(print_of(GREAT_IDEAS_RENAMES@[9].0@)));
    assert(old_idea(print_of(GREAT_IDEAS_RENAMES@[10].0@)));
}

proof fn lemma_new_ideas()
    ensures
        forall|i: int| 0 <= i < GREAT_IDEAS_RENAMES@.len() ==> !old_idea(print_of((#[trigger] GREAT_IDEAS_RENAMES@[i]).1@)),
{
    reveal_strlit("Custom and Convention");
    reveal_strlit("Good and Evil");
    reveal_strlit("Life and Death");
    reveal_strlit("Memory and Imagination");
    reveal_strlit("Necessity and Contingency");
    reveal_strlit("Pleasure and Pain");
    reveal_strlit("Sign and Symbol");
    reveal_strlit("Tyranny and Despotism");
    reveal_strlit("Universal and Particular");
    reveal_strlit("Virtue and Vice");
    reveal_strlit("War and Peace");
    assert(!old_idea(print_of(GREAT_IDEAS_RENAMES@[0].1@)));
    assert(!old_idea(print_of(GREAT_IDEAS_RENAMES@[1].1@)));
    assert(!old_idea(print_of(GREAT_IDEAS_RENAMES@[2].1@)));
    assert(!old_idea(print_of(GREAT_IDEAS_RENAMES@[3].1@)));
    assert(!old_idea(print_of(GREAT_IDEAS_RENAMES@[4].1@)));
    assert(!old_idea(print_of(GREAT_IDEAS_RENAMES@[5].1@)));
    assert(!old_idea(print_of(GREAT_IDEAS_RENAMES@[6].1@)));
    assert(!old_idea(print_of(GREAT_IDEAS_RENAMES@[7].1@)));
    assert(!old_idea(print_of(GREAT_IDEAS_RENAMES@[8].1@)));
    assert(!old_idea(print_of(GREAT_IDEAS_RENAMES@[9].1@)));
    assert(!old_idea(print_of(GREAT_IDEAS_RENAMES@[10].1@)));
}

proof fn lemma_old_canons()
    ensures
        forall|i: int| 0 <= i < CANON_REMAP_V14@.len() ==> old_canon(print_of((#[trigger] CANON_REMAP_V14@[i]).0@)),
{
    reveal_strlit("Animal");
    reveal_strlit("Aristocracy");
    reveal_strlit("Cause");
    reveal_strlit("Chance");
    reveal_strlit("Citizen");
    reveal_strlit("Constitution");
    reveal_strlit("Courage");
    reveal_strlit("Custom and Convention");
    reveal_strlit("Dialectic");
    reveal_strlit("Duty");
    reveal_strlit("Education");
    reveal_strlit("Experience");
    reveal_strlit("Family");
    reveal_strlit("Form");
    reveal_strlit("God");
    reveal_strlit("Good and Evil");
    reveal_strlit("Government");
    reveal_strlit("Happiness");
    reveal_strlit("Honor");
    reveal_strlit("Hypothesis");
    reveal_strlit("Immortality");
    reveal_strlit("Induction");
    reveal_strlit("Knowledge");
    reveal_strlit("Labor");
    reveal_strlit("Law");
    reveal_strlit("Liberty");
    reveal_strlit("Life and Death");
    reveal_strlit("Logic");
    reveal_strlit("Man");
    reveal_strlit("Memory and Imagination");
    reveal_strlit("Mind");
    reveal_strlit("Monarchy");
    reveal_strlit("Oligarchy");
    reveal_strlit("Opinion");
    reveal_strlit("Pleasure and Pain");
    reveal_strlit("Poetry");
    reveal_strlit("Property");
    reveal_strlit("Prophecy");
    reveal_strlit("Prudence");
    reveal_strlit("Punishment");
    reveal_strlit("Religion");
    reveal_strlit("Revolution");
    reveal_strlit("Rhetoric");
    reveal_strlit("Sense");
    reveal_strlit("Sign and Symbol");
    reveal_strlit("Sin");
    reveal_strlit("Slavery");
    reveal_strlit("Soul");
    reveal_strlit("State");
    reveal_strlit("Temperance");
    reveal_strlit("Theology");
    reveal_strlit("Tyranny and Despotism");
    reveal_strlit("Virtue and Vice");
    reveal_strlit("War and Peace");
    reveal_strlit("Wealth");
    reveal_strlit("Will");
    reveal_strlit("Wisdom");
    reveal_strlit("World");
    assert(old_canon(print_of(CANON_REMAP_V14@[0].0@)));
    assert(old_canon(print_of(CANON_REMAP_V14@[1].0@)));
    assert(old_canon(print_of(CANON_REMAP_V14@[2].0@)));
    assert(old_canon(print_of(CANON_REMAP_V14@[3].0@)));
    assert(old_canon(print_of(CANON_REMAP_V14@[4].0@)));
    assert(old_canon(print_of(CANON_REMAP_V14@[5].0@)));
    assert(old_canon(print_of(CANON_REMAP_V14@[6].0@)));
    assert(old_canon(print_of(CANON_REMAP_V14@[7].0@)));
    assert(old_canon(print_of(CANON_REMAP_V14@[8].0@)));
    assert(old_canon(print_of(CANON_REMAP_V14@[9].0@)));
    assert(old_canon(print_of(CANON_REMAP_V14@[10].0@)));
    assert(old_canon(print_of(CANON_REMAP_V14@[11].0@)));
    assert(old_canon(print_of(CANON_REMAP_V14@[12].0@)));
    assert(old_canon(print_of(CANON_REMAP_V14@[13].0@)));
    assert(old_canon(print_of(CANON_REMAP_V14@[14].0@)));
    assert(old_canon(print_of(CANON_REMAP_V14@[15].0@)));
    assert(old_canon(print_of(CANON_REMAP_V14@[16].0@)));
    assert(old_canon(print_of(CANON_REMAP_V14@[17].0@)));
    assert(old_canon(print_of(CANON_REMAP_V14@[18].0@)));
    assert(old_canon(print_of(CANON_REMAP_V14@[19].0@)));
    assert(old_canon(print_of(CANON_REMAP_V14@[20].0@)));
    assert(old_canon(print_of(CANON_REMAP_V14@[21].0@)));
    assert(old_canon(print_of(CANON_REMAP_V14@[22].0@)));
    assert(old_canon(print_of(CANON_REMAP_V14@[23].0@)));
    assert(old_canon(print_of(CANON_REMAP_V14@[24].0@)));
    assert(old_canon(print_of(CANON_REMAP_V14@[25].0@)));
    assert(old_canon(print_of(CANON_REMAP_V14@[26].0@)));
    assert(old_canon(print_of(CANON_REMAP_V14@[27].0@)));
    assert(old_canon(print_of(CANON_REMAP_V14@[28].0@)));
    assert(old_canon(print_of(CANON_REMAP_V14@[29].0@)));
    assert(old_canon(print_of(CANON_REMAP_V14@[30].0@)));
    assert(old_canon(print_of(CANON_REMAP_V14@[31].0@)));
    assert(old_canon(print_of(CANON_REMAP_V14@[32].0@)));
    assert(old_canon(print_of(CANON_REMAP_V14@[33].0@)));
    assert(old_canon(print_of(CANON_REMAP_V14@[34].0@)));
    assert(old_canon(print_of(CANON_REMAP_V14@[35].0@)));
    assert(old_canon(print_of(CANON_REMAP_V14@[36].0@)));
    assert(old_canon(print_of(CANON_REMAP_V14@[37].0@)));
    assert(old_canon(print_of(CANON_REMAP_V14@[38].0@)));
    assert(old_canon(print_of(CANON_REMAP_V14@[39].0@)));
    assert(old_canon(print_of(CANON_REMAP_V14@[40].0@)));
    assert(old_canon(print_of(CANON_REMAP_V14@[41].0@)));
    assert(old_canon(print_of(CANON_REMAP_V14@[42].0@)));
    assert(old_canon(print_of(CANON_REMAP_V14@[43].0@)));
    assert(old_canon(print_of(CANON_REMAP_V14@[44].0@)));
    assert(old_canon(print_of(CANON_REMAP_V14@[45].0@)));
    assert(old_canon(print_of(CANON_REMAP_V14@[46].0@)));
    assert(old_canon(print_of(CANON_REMAP_V14@[47].0@)));
    assert(old_canon(print_of(CANON_REMAP_V14@[48].0@)));
    assert(old_canon(print_of(CANON_REMAP_V14@[49].0@)));
    assert(old_canon(print_of(CANON_REMAP_V14@[50].0@)));
    assert(old_canon(print_of(CANON_REMAP_V14@[51].0@)));
    assert(old_canon(print_of(CANON_REMAP_V14@[52].0@)));
    assert(old_canon(print_of(CANON_REMAP_V14@[53].0@)));
    assert(old_canon(print_of(CANON_REMAP_V14@[54].0@)));
    assert(old_canon(print_of(CANON_REMAP_V14@[55].0@)));
    assert(old_canon(print_of(CANON_REMAP_V14@[56].0@)));
    assert(old_canon(print_of(CANON_REMAP_V14@[57].0@)));
}

proof fn lemma_new_canons()
    ensures
        forall|i: int| 0 <= i < CANON_REMAP_V14@.len() ==> !old_canon(print_of((#[trigger] CANON_REMAP_V14@[i]).1@)),
        forall|i: int| 0 <= i < CANON_REMAP_V14@.len() ==> old_idea(print_of((#[trigger] CANON_REMAP_V14@[i]).1@)) ==> returning((CANON_REMAP_V14@[i]).1@),
{
    reveal_strlit("Art");
    reveal_strlit("Beauty");
    reveal_strlit("Causation");
    reveal_strlit("Community");
    reveal_strlit("Conflict");
    reveal_strlit("Consciousness");
    reveal_strlit("Discipline");
    reveal_strlit("Emotion");
    reveal_strlit("Evidence");
    reveal_strlit("Freedom");
    reveal_strlit("Identity");
    reveal_strlit("Institutions");
    reveal_strlit("Judgment");
    reveal_strlit("Justice");
    reveal_strlit("Language");
    reveal_strlit("Learning");
    reveal_strlit("Life");
    reveal_strlit("Markets");
    reveal_strlit("Memory");
    reveal_strlit("Morality");
    reveal_strlit("Motivation");
    reveal_strlit("Narrative");
    reveal_strlit("Nature");
    reveal_strlit("Obligation");
    reveal_strlit("Power");
    reveal_strlit("Probability");
    reveal_strlit("Productivity");
    reveal_strlit("Purpose");
    reveal_strlit("Reasoning");
    reveal_strlit("Status");
    reveal_strlit("Strategy");
    reveal_strlit("Truth");
    reveal_strlit("Virtue");
    reveal_strlit("the Sacred");
    assert(!old_canon(print_of(CANON_REMAP_V14@[0].1@)));
    assert(old_idea(print_of(CANON_REMAP_V14@[0].1@)) ==> returning(CANON_REMAP_V14@[0].1@));
    assert(!old_canon(print_of(CANON_REMAP_V14@[1].1@)));
    assert(old_idea(print_of(CANON_REMAP_V14@[1].1@)) ==> returning(CANON_REMAP_V14@[1].1@));
    assert(!old_canon(print_of(CANON_REMAP_V14@[2].1@)));
    assert(old_idea(print_of(CANON_REMAP_V14@[2].1@)) ==> returning(CANON_REMAP_V14@[2].1@));
    assert(!old_canon(print_of(CANON_REMAP_V14@[3].1@)));
    assert(old_idea(print_of(CANON_REMAP_V14@[3].1@)) ==> returning(CANON_REMAP_V14@[3].1@));
    assert(!old_canon(print_of(CANON_REMAP_V14@[4].1@)));
    assert(old_idea(print_of(CANON_REMAP_V14@[4].1@)) ==> returning(CANON_REMAP_V14@[4].1@));
    assert(!old_canon(print_of(CANON_REMAP_V14@[5].1@)));
    assert(old_idea(print_of(CANON_REMAP_V14@[5].1@)) ==> returning(CANON_REMAP_V14@[5].1@));
    assert(!old_canon(print_of(CANON_REMAP_V14@[6].1@)));
    assert(old_idea(print_of(CANON_REMAP_V14@[6].1@)) ==> returning(CANON_REMAP_V14@[6].1@));
    assert(!old_canon(print_of(CANON_REMAP_V14@[7].1@)));
    assert(old_idea(print_of(CANON_REMAP_V14@[7].1@)) ==> returning(CANON_REMAP_V14@[7].1@));
    assert(!old_canon(print_of(CANON_REMAP_V14@[8].1@)));
    assert(old_idea(print_of(CANON_REMAP_V14@[8].1@)) ==> returning(CANON_REMAP_V14@[8].1@));
    assert(!old_canon(print_of(CANON_REMAP_V14@[9].1@)));
    assert(old_idea(print_of(CANON_REMAP_V14@[9].1@)) ==> returning(CANON_REMAP_V14@[9].1@));
    assert(!old_canon(print_of(CANON_REMAP_V14@[10].1@)));
    assert(old_idea(print_of(CANON_REMAP_V14@[10].1@)) ==> returning(CANON_REMAP_V14@[10].1@));
    assert(!old_canon(print_of(CANON_REMAP_V14@[11].1@)));
    assert(old_idea(print_of(CANON_REMAP_V14@[11].1@)) ==> returning(CANON_REMAP_V14@[11].1@));
    assert(!old_canon(print_of(CANON_REMAP_V14@[12].1@)));
    assert(old_idea(print_of(CANON_REMAP_V14@[12].1@)) ==> returning(CANON_REMAP_V14@[12].1@));
    assert(!old_canon(print_of(CANON_REMAP_V14@[13].1@)));
    assert(old_idea(print_of(CANON_REMAP_V14@[13].1@)) ==> returning(CANON_REMAP_V14@[13].1@));
    assert(!old_canon(print_of(CANON_REMAP_V14@[14].1@)));
    assert(old_idea(print_of(CANON_REMAP_V14@[14].1@)) ==> returning(CANON_REMAP_V14@[14].1@));
    assert(!old_canon(print_of(CANON_REMAP_V14@[15].1@)));
    assert(old_idea(print_of(CANON_REMAP_V14@[15].1@)) ==> returning(CANON_REMAP_V14@[15].1@));
    assert(!old_canon(print_of(CANON_REMAP_V14@[16].1@)));
    assert(old_idea(print_of(CANON_REMAP_V14@[16].1@)) ==> returning(CANON_REMAP_V14@[16].1@));
    assert(!old_canon(print_of(CANON_REMAP_V14@[17].1@)));
    assert(old_idea(print_of(CANON_REMAP_V14@[17].1@)) ==> returning(CANON_REMAP_V14@[17].1@));
    assert(!old_canon(print_of(CANON_REMAP_V14@[18].1@)));
    assert(old_idea(print_of(CANON_REMAP_V14@[18].1@)) ==> returning(CANON_REMAP_V14@[18].1@));
    assert(!old_canon(print_of(CANON_REMAP_V14@[19].1@)));
    assert(old_idea(print_of(CANON_REMAP_V14@[19].1@)) ==> returning(CANON_REMAP_V14@[19].1@));
    assert(!old_canon(print_of(CANON_REMAP_V14@[20].1@)));
    assert(old_idea(print_of(CANON_REMAP_V14@[20].1@)) ==> returning(CANON_REMAP_V14@[20].1@));
    assert(!old_canon(print_of(CANON_REMAP_V14@[21].1@)));
    assert(old_idea(print_of(CANON_REMAP_V14@[21].1@)) ==> returning(CANON_REMAP_V14@[21].1@));
    assert(!old_canon(print_of(CANON_REMAP_V14@[22].1@)));
    assert(old_idea(print_of(CANON_REMAP_V14@[22].1@)) ==> returning(CANON_REMAP_V14@[22].1@));
    assert(!old_canon(print_of(CANON_REMAP_V14@[23].1@)));
    assert(old_idea(print_of(CANON_REMAP_V14@[23].1@)) ==> returning(CANON_REMAP_V14@[23].1@));
    assert(!old_canon(print_of(CANON_REMAP_V14@[24].1@)));
    assert(old_idea(print_of(CANON_REMAP_V14@[24].1@)) ==> returning(CANON_REMAP_V14@[24].1@));
    assert(!old_canon(print_of(CANON_REMAP_V14@[25].1@)));
    assert(old_idea(print_of(CANON_REMAP_V14@[25].1@)) ==> returning(CANON_REMAP_V14@[25].1@));
    assert(!old_canon(print_of(CANON_REMAP_V14@[26].1@)));
    assert(old_idea(print_of(CANON_REMAP_V14@[26].1@)) ==> returning(CANON_REMAP_V14@[26].1@));
    assert(!old_canon(print_of(CANON_REMAP_V14@[27].1@)));
    assert(old_idea(print_of(CANON_REMAP_V14@[27].1@)) ==> returning(CANON_REMAP_V14@[27].1@));
    assert(!old_canon(print_of(CANON_REMAP_V14@[28].1@)));
    assert(old_idea(print_of(CANON_REMAP_V14@[28].1@)) ==> returning(CANON_REMAP_V14@[28].1@));
    assert(!old_canon(print_of(CANON_REMAP_V14@[29].1@)));
    assert(old_idea(print_of(CANON_REMAP_V14@[29].1@)) ==> returning(CANON_REMAP_V14@[29].1@));
    assert(!old_canon(print_of(CANON_REMAP_V14@[30].1@)));
    assert(old_idea(print_of(CANON_REMAP_V14@[30].1@)) ==> returning(CANON_REMAP_V14@[30].1@));
    assert(!old_canon(print_of(CANON_REMAP_V14@[31].1@)));
    assert(old_idea(print_of(CANON_REMAP_V14@[31].1@)) ==> returning(CANON_REMAP_V14@[31].1@));
    assert(!old_canon(print_of(CANON_REMAP_V14@[32].1@)));
    assert(old_idea(print_of(CANON_REMAP_V14@[32].1@)) ==> returning(CANON_REMAP_V14@[32].1@));
    assert(!old_canon(print_of(CANON_REMAP_V14@[33].1@)));
    assert(old_idea(print_of(CANON_REMAP_V14@[33].1@)) ==> returning(CANON_REMAP_V14@[33].1@));
    assert(!old_canon(print_of(CANON_REMAP_V14@[34].1@)));
    assert(old_idea(print_of(CANON_REMAP_V14@[34].1@)) ==> returning(CANON_REMAP_V14@[34].1@));
    assert(!old_canon(print_of(CANON_REMAP_V14@[35].1@)));
    assert(old_idea(print_of(CANON_REMAP_V14@[35].1@)) ==> returning(CANON_REMAP_V14@[35].1@));
    assert(!old_canon(print_of(CANON_REMAP_V14@[36].1@)));
    assert(old_idea(print_of(CANON_REMAP_V14@[36].1@)) ==> returning(CANON_REMAP_V14@[36].1@));
    assert(!old_canon(print_of(CANON_REMAP_V14@[37].1@)));
    assert(old_idea(print_of(CANON_REMAP_V14@[37].1@)) ==> returning(CANON_REMAP_V14@[37].1@));
    assert(!old_canon(print_of(CANON_REMAP_V14@[38].1@)));
    assert(old_idea(print_of(CANON_REMAP_V14@[38].1@)) ==> returning(CANON_REMAP_V14@[38].1@));
    assert(!old_canon(print_of(CANON_REMAP_V14@[39].1@)));
    assert(old_idea(print_of(CANON_REMAP_V14@[39].1@)) ==> returning(CANON_REMAP_V14@[39].1@));
    assert(!old_canon(print_of(CANON_REMAP_V14@[40].1@)));
    assert(old_idea(print_of(CANON_REMAP_V14@[40].1@)) ==> returning(CANON_REMAP_V14@[40].1@));
    assert(!old_canon(print_of(CANON_REMAP_V14@[41].1@)));
    assert(old_idea(print_of(CANON_REMAP_V14@[41].1@)) ==> returning(CANON_REMAP_V14@[41].1@));
    assert(!old_canon(print_of(CANON_REMAP_V14@[42].1@)));
    assert(old_idea(print_of(CANON_REMAP_V14@[42].1@)) ==> returning(CANON_REMAP_V14@[42].1@));
    assert(!old_canon(print_of(CANON_REMAP_V14@[43].1@)));
    assert(old_idea(print_of(CANON_REMAP_V14@[43].1@)) ==> returning(CANON_REMAP_V14@[43].1@));
    assert(!old_canon(print_of(CANON_REMAP_V14@[44].1@)));
    assert(old_idea(print_of(CANON_REMAP_V14@[44].1@)) ==> returning(CANON_REMAP_V14@[44].1@));
    assert(!old_canon(print_of(CANON_REMAP_V14@[45].1@)));
    assert(old_idea(print_of(CANON_REMAP_V14@[45].1@)) ==> returning(CANON_REMAP_V14@[45].1@));
    assert(!old_canon(print_of(CANON_REMAP_V14@[46].1@)));
    assert(old_idea(print_of(CANON_REMAP_V14@[46].1@)) ==> returning(CANON_REMAP_V14@[46].1@));
    assert(!old_canon(print_of(CANON_REMAP_V14@[47].1@)));
    assert(old_idea(print_of(CANON_REMAP_V14@[47].1@)) ==> returning(CANON_REMAP_V14@[47].1@));
    assert(!old_canon(print_of(CANON_REMAP_V14@[48].1@)));
    assert(old_idea(print_of(CANON_REMAP_V14@[48].1@)) ==> returning(CANON_REMAP_V14@[48].1@));
    assert(!old_canon(print_of(CANON_REMAP_V14@[49].1@)));
    assert(old_idea(print_of(CANON_REMAP_V14@[49].1@)) ==> returning(CANON_REMAP_V14@[49].1@));
    assert(!old_canon(print_of(CANON_REMAP_V14@[50].1@)));
    assert(old_idea(print_of(CANON_REMAP_V14@[50].1@)) ==> returning(CANON_REMAP_V14@[50].1@));
    assert(!old_canon(print_of(CANON_REMAP_V14@[51].1@)));
    assert(old_idea(print_of(CANON_REMAP_V14@[51].1@)) ==> returning(CANON_REMAP_V14@[51].1@));
    assert(!old_canon(print_of(CANON_REMAP_V14@[52].1@)));
    assert(old_idea(print_of(CANON_REMAP_V14@[52].1@)) ==> returning(CANON_REMAP_V14@[52].1@));
    assert(!old_canon(print_of(CANON_REMAP_V14@[53].1@)));
    assert(old_idea(print_of(CANON_REMAP_V14@[53].1@)) ==> returning(CANON_REMAP_V14@[53].1@));
    assert(!old_canon(print_of(CANON_REMAP_V14@[54].1@)));
    assert(old_idea(print_of(CANON_REMAP_V14@[54].1@)) ==> returning(CANON_REMAP_V14@[54].1@));
    assert(!old_canon(print_of(CANON_REMAP_V14@[55].1@)));
    assert(old_idea(print_of(CANON_REMAP_V14@[55].1@)) ==> returning(CANON_REMAP_V14@[55].1@));
    assert(!old_canon(print_of(CANON_REMAP_V14@[56].1@)));
    assert(old_idea(print_of(CANON_REMAP_V14@[56].1@)) ==> returning(CANON_REMAP_V14@[56].1@));
    assert(!old_canon(print_of(CANON_REMAP_V14@[57].1@)));
    assert(old_idea(print_of(CANON_REMAP_V14@[57].1@)) ==> returning(CANON_REMAP_V14@[57].1@));
}

/// What a table of renames makes of a tag: the newer name of a pair whose older name it is, or the
/// tag itself where there is none.
proof fn lemma_renamed(tag: Seq<char>, pairs: Seq<(Seq<char>, Seq<char>)>)
    ensures
        (exists|k: int|
            0 <= k < pairs.len() && (#[trigger] pairs[k]).0 == tag && renamed(tag, pairs)
                == pairs[k].1) || (renamed(tag, pairs) == tag && forall|k: int|
            0 <= k < pairs.len() ==> (#[trigger] pairs[k]).0 != tag),
    decreases pairs.len(),
{
    if pairs.len() > 0 && pairs[0].0 != tag {
        let rest = pairs.drop_first();
        lemma_renamed(tag, rest);
        if exists|k: int|
            0 <= k < rest.len() && (#[trigger] rest[k]).0 == tag && renamed(tag, rest) == rest[k].1 {
            let k = choose|k: int|
                0 <= k < rest.len() && (#[trigger] rest[k]).0 == tag && renamed(tag, rest)
                    == rest[k].1;
            assert(pairs[k + 1] == rest[k]);
        } else {
            assert forall|k: int| 0 <= k < pairs.len() implies (#[trigger] pairs[k]).0 != tag by {
                if k > 0 {
                    assert(pairs[k] == rest[k - 1]);
                }
            }
        }
    }
}

/// A tag that is no older name keeps its name.
proof fn lemma_not_renamed(tag: Seq<char>, pairs: Seq<(Seq<char>, Seq<char>)>)
    requires
        forall|k: int| 0 <= k < pairs.len() ==> (#[trigger] pairs[k]).0 != tag,
    ensures
        renamed(tag, pairs) == tag,
{
    lemma_renamed(tag, pairs);
}

proof fn lemma_returning_ideas()
    ensures
        renamed("Virtue"@, pairs_view(GREAT_IDEAS_RENAMES@)) == "Virtue and Vice"@,
        renamed("Life"@, pairs_view(GREAT_IDEAS_RENAMES@)) == "Life and Death"@,
        renamed("Memory"@, pairs_view(GREAT_IDEAS_RENAMES@)) == "Memory and Imagination"@,
{
    let pairs = pairs_view(GREAT_IDEAS_RENAMES@);
    reveal_strlit("Custom");
    reveal_strlit("Good");
    reveal_strlit("Life");
    reveal_strlit("Memory");
    reveal_strlit("Necessity");
    reveal_strlit("Pleasure");
    reveal_strlit("Sign");
    reveal_strlit("Tyranny");
    reveal_strlit("Universal");
    reveal_strlit("Virtue");
    reveal_strlit("War");
    assert(print_of(GREAT_IDEAS_RENAMES@[0].0@) == (4nat, 'G', 'o'));
    assert(print_of(GREAT_IDEAS_RENAMES@[1].0@) == (6nat, 'C', 's'));
    assert(print_of(GREAT_IDEAS_RENAMES@[2].0@) == (8nat, 'P', 'e'));
    assert(print_of(GREAT_IDEAS_RENAMES@[3].0@) == (6nat, 'V', 'r'));
    assert(print_of(GREAT_IDEAS_RENAMES@[4].0@) == (4nat, 'S', 'g'));
    assert(print_of(GREAT_IDEAS_RENAMES@[5].0@) == (3nat, 'W', 'r'));
    assert(print_of(GREAT_IDEAS_RENAMES@[6].0@) == (7nat, 'T', 'r'));
    assert(print_of(GREAT_IDEAS_RENAMES@[7].0@) == (4nat, 'L', 'f'));
    assert(print_of(GREAT_IDEAS_RENAMES@[8].0@) == (6nat, 'M', 'm'));
    assert(print_of(GREAT_IDEAS_RENAMES@[9].0@) == (9nat, 'N', 'c'));
    assert(print_of(GREAT_IDEAS_RENAMES@[10].0@) == (9nat, 'U', 'i'));
    assert(renamed("Virtue"@, pairs) == "Virtue and Vice"@) by {
        lemma_renamed("Virtue"@, pairs);
        assert(pairs[3] == (GREAT_IDEAS_RENAMES@[3].0@, GREAT_IDEAS_RENAMES@[3].1@));
        assert forall|k: int| 0 <= k < pairs.len() && (#[trigger] pairs[k]).0 == "Virtue"@ implies k
            == 3 by {
            assert(pairs[k].0 == GREAT_IDEAS_RENAMES@[k].0@);
            assert(print_of(GREAT_IDEAS_RENAMES@[k].0@) == (6nat, 'V', 'r'));
        }
    }
    assert(renamed("Life"@, pairs) == "Life and Death"@) by {
        lemma_renamed("Life"@, pairs);
        assert(pairs[7] == (GREAT_IDEAS_RENAMES@[7].0@, GREAT_IDEAS_RENAMES@[7].1@));
        assert forall|k: int| 0 <= k < pairs.len() && (#[trigger] pairs[k]).0 == "Life"@ implies k
            == 7 by {
            assert(pairs[k].0 == GREAT_IDEAS_RENAMES@[k].0@);
            assert(print_of(GREAT_IDEAS_RENAMES@[k].0@) == (4nat, 'L', 'f'));
        }
    }
    assert(renamed("Memory"@, pairs) == "Memory and Imagination"@) by {
        lemma_renamed("Memory"@, pairs);
        assert(pairs[8] == (GREAT_IDEAS_RENAMES@[8].0@, GREAT_IDEAS_RENAMES@[8].1@));
        assert forall|k: int| 0 <= k < pairs.len() && (#[trigger] pairs[k]).0 == "Memory"@ implies k
            == 8 by {
            assert(pairs[k].0 == GREAT_IDEAS_RENAMES@[k].0@);
            assert(print_of(GREAT_IDEAS_RENAMES@[k].0@) == (6nat, 'M', 'm'));
        }
    }
}

proof fn lemma_returning_canons()
    ensures
        renamed("Virtue and Vice"@, pairs_view(CANON_REMAP_V14@)) == "Virtue"@,
        renamed("Life and Death"@, pairs_view(CANON_REMAP_V14@)) == "Life"@,
        renamed("Memory and Imagination"@, pairs_view(CANON_REMAP_V14@)) == "Memory"@,
{
    let pairs = pairs_view(CANON_REMAP_V14@);
    reveal_strlit("Animal");
    reveal_strlit("Aristocracy");
    reveal_strlit("Cause");
    reveal_strlit("Chance");
    reveal_strlit("Citizen");
    reveal_strlit("Constitution");
    reveal_strlit("Courage");
    reveal_strlit("Custom and Convention");
    reveal_strlit("Dialectic");
    reveal_strlit("Duty");
    reveal_strlit("Education");
    reveal_strlit("Experience");
    reveal_strlit("Family");
    reveal_strlit("Form");
    reveal_strlit("God");
    reveal_strlit("Good and Evil");
    reveal_strlit("Government");
    reveal_strlit("Happiness");
    reveal_strlit("Honor");
    reveal_strlit("Hypothesis");
    reveal_strlit("Immortality");
    reveal_strlit("Induction");
    reveal_strlit("Knowledge");
    reveal_strlit("Labor");
    reveal_strlit("Law");
    reveal_strlit("Liberty");
    reveal_strlit("Life and Death");
    reveal_strlit("Logic");
    reveal_strlit("Man");
    reveal_strlit("Memory and Imagination");
    reveal_strlit("Mind");
    reveal_strlit("Monarchy");
    reveal_strlit("Oligarchy");
    reveal_strlit("Opinion");
    reveal_strlit("Pleasure and Pain");
    reveal_strlit("Poetry");
    reveal_strlit("Property");
    reveal_strlit("Prophecy");
    reveal_strlit("Prudence");
    reveal_strlit("Punishment");
    reveal_strlit("Religion");
    reveal_strlit("Revolution");
    reveal_strlit("Rhetoric");
    reveal_strlit("Sense");
    reveal_strlit("Sign and Symbol");
    reveal_strlit("Sin");
    reveal_strlit("Slavery");
    reveal_strlit("Soul");
    reveal_strlit("State");
    reveal_strlit("Temperance");
    reveal_strlit("Theology");
    reveal_strlit("Tyranny and Despotism");
    reveal_strlit("Virtue and Vice");
    reveal_strlit("War and Peace");
    reveal_strlit("Wealth");
    reveal_strlit("Will");
    reveal_strlit("Wisdom");
    reveal_strlit("World");
    assert(print_of(CANON_REMAP_V14@[0].0@) == (5nat, 'C', 'u'));
    assert(print_of(CANON_REMAP_V14@[1].0@) == (6nat, 'C', 'a'));
    assert(print_of(CANON_REMAP_V14@[2].0@) == (7nat, 'L', 'b'));
    assert(print_of(CANON_REMAP_V14@[3].0@) == (5nat, 'H', 'n'));
    assert(print_of(CANON_REMAP_V14@[4].0@) == (15nat, 'V', 'r'));
    assert(print_of(CANON_REMAP_V14@[5].0@) == (6nat, 'A', 'i'));
    assert(print_of(CANON_REMAP_V14@[6].0@) == (11nat, 'A', 'i'));
    assert(print_of(CANON_REMAP_V14@[7].0@) == (8nat, 'M', 'n'));
    assert(print_of(CANON_REMAP_V14@[8].0@) == (9nat, 'O', 'i'));
    assert(print_of(CANON_REMAP_V14@[9].0@) == (21nat, 'T', 'r'));
    assert(print_of(CANON_REMAP_V14@[10].0@) == (12nat, 'C', 'n'));
    assert(print_of(CANON_REMAP_V14@[11].0@) == (10nat, 'G', 'v'));
    assert(print_of(CANON_REMAP_V14@[12].0@) == (5nat, 'S', 'a'));
    assert(print_of(CANON_REMAP_V14@[13].0@) == (7nat, 'C', 't'));
    assert(print_of(CANON_REMAP_V14@[14].0@) == (21nat, 'C', 's'));
    assert(print_of(CANON_REMAP_V14@[15].0@) == (7nat, 'C', 'u'));
    assert(print_of(CANON_REMAP_V14@[16].0@) == (9nat, 'D', 'a'));
    assert(print_of(CANON_REMAP_V14@[17].0@) == (9nat, 'I', 'd'));
    assert(print_of(CANON_REMAP_V14@[18].0@) == (5nat, 'L', 'g'));
    assert(print_of(CANON_REMAP_V14@[19].0@) == (4nat, 'D', 't'));
    assert(print_of(CANON_REMAP_V14@[20].0@) == (9nat, 'E', 'u'));
    assert(print_of(CANON_REMAP_V14@[21].0@) == (10nat, 'E', 'p'));
    assert(print_of(CANON_REMAP_V14@[22].0@) == (6nat, 'F', 'm'));
    assert(print_of(CANON_REMAP_V14@[23].0@) == (4nat, 'F', 'r'));
    assert(print_of(CANON_REMAP_V14@[24].0@) == (3nat, 'G', 'd'));
    assert(print_of(CANON_REMAP_V14@[25].0@) == (8nat, 'R', 'l'));
    assert(print_of(CANON_REMAP_V14@[26].0@) == (8nat, 'T', 'e'));
    assert(print_of(CANON_REMAP_V14@[27].0@) == (8nat, 'P', 'o'));
    assert(print_of(CANON_REMAP_V14@[28].0@) == (11nat, 'I', 'm'));
    assert(print_of(CANON_REMAP_V14@[29].0@) == (10nat, 'H', 'p'));
    assert(print_of(CANON_REMAP_V14@[30].0@) == (5nat, 'L', 'b'));
    assert(print_of(CANON_REMAP_V14@[31].0@) == (4nat, 'M', 'n'));
    assert(print_of(CANON_REMAP_V14@[32].0@) == (4nat, 'S', 'u'));
    assert(print_of(CANON_REMAP_V14@[33].0@) == (5nat, 'S', 'n'));
    assert(print_of(CANON_REMAP_V14@[34].0@) == (6nat, 'P', 'e'));
    assert(print_of(CANON_REMAP_V14@[35].0@) == (8nat, 'P', 'o'));
    assert(print_of(CANON_REMAP_V14@[36].0@) == (6nat, 'W', 'a'));
    assert(print_of(CANON_REMAP_V14@[37].0@) == (8nat, 'P', 'u'));
    assert(print_of(CANON_REMAP_V14@[38].0@) == (10nat, 'P', 'n'));
    assert(print_of(CANON_REMAP_V14@[39].0@) == (10nat, 'R', 'v'));
    assert(print_of(CANON_REMAP_V14@[40].0@) == (8nat, 'R', 'e'));
    assert(print_of(CANON_REMAP_V14@[41].0@) == (15nat, 'S', 'g'));
    assert(print_of(CANON_REMAP_V14@[42].0@) == (3nat, 'S', 'n'));
    assert(print_of(CANON_REMAP_V14@[43].0@) == (10nat, 'T', 'm'));
    assert(print_of(CANON_REMAP_V14@[44].0@) == (6nat, 'W', 's'));
    assert(print_of(CANON_REMAP_V14@[45].0@) == (7nat, 'O', 'i'));
    assert(print_of(CANON_REMAP_V14@[46].0@) == (4nat, 'W', 'l'));
    assert(print_of(CANON_REMAP_V14@[47].0@) == (5nat, 'W', 'r'));
    assert(print_of(CANON_REMAP_V14@[48].0@) == (3nat, 'M', 'n'));
    assert(print_of(CANON_REMAP_V14@[49].0@) == (13nat, 'G', 'o'));
    assert(print_of(CANON_REMAP_V14@[50].0@) == (9nat, 'H', 'p'));
    assert(print_of(CANON_REMAP_V14@[51].0@) == (9nat, 'K', 'o'));
    assert(print_of(CANON_REMAP_V14@[52].0@) == (3nat, 'L', 'w'));
    assert(print_of(CANON_REMAP_V14@[53].0@) == (14nat, 'L', 'f'));
    assert(print_of(CANON_REMAP_V14@[54].0@) == (22nat, 'M', 'm'));
    assert(print_of(CANON_REMAP_V14@[55].0@) == (17nat, 'P', 'e'));
    assert(print_of(CANON_REMAP_V14@[56].0@) == (7nat, 'S', 'a'));
    assert(print_of(CANON_REMAP_V14@[57].0@) == (13nat, 'W', 'r'));
    assert(renamed("Virtue and Vice"@, pairs) == "Virtue"@) by {
        lemma_renamed("Virtue and Vice"@, pairs);
        assert(pairs[4] == (CANON_REMAP_V14@[4].0@, CANON_REMAP_V14@[4].1@));
        assert forall|k: int| 0 <= k < pairs.len() && (#[trigger] pairs[k]).0 == "Virtue and Vice"@ implies k
            == 4 by {
            assert(pairs[k].0 == CANON_REMAP_V14@[k].0@);
            assert(print_of(CANON_REMAP_V14@[k].0@) == (15nat, 'V', 'r'));
        }
    }
    assert(renamed("Life and Death"@, pairs) == "Life"@) by {
        lemma_renamed("Life and Death"@, pairs);
        assert(pairs[53] == (CANON_REMAP_V14@[53].0@, CANON_REMAP_V14@[53].1@));
        assert forall|k: int| 0 <= k < pairs.len() && (#[trigger] pairs[k]).0 == "Life and Death"@ implies k
            == 53 by {
            assert(pairs[k].0 == CANON_REMAP_V14@[k].0@);
            assert(print_of(CANON_REMAP_V14@[k].0@) == (14nat, 'L', 'f'));
        }
    }
    assert(renamed("Memory and Imagination"@, pairs) == "Memory"@) by {
        lemma_renamed("Memory and Imagination"@, pairs);
        assert(pairs[54] == (CANON_REMAP_V14@[54].0@, CANON_REMAP_V14@[54].1@));
        assert forall|k: int| 0 <= k < pairs.len() && (#[trigger] pairs[k]).0 == "Memory and Imagination"@ implies k
            == 54 by {
            assert(pairs[k].0 == CANON_REMAP_V14@[k].0@);
            assert(print_of(CANON_REMAP_V14@[k].0@) == (22nat, 'M', 'm'));
        }
    }
}

/// A tag that the second renames gave keeps its name under them.
proof fn lemma_canon_settled(tag: Seq<char>)
    ensures
        ({
            let pairs = pairs_view(CANON_REMAP_V14@);
            renamed(renamed(tag, pairs), pairs) == renamed(tag, pairs)
        }),
{
    let pairs = pairs_view(CANON_REMAP_V14@);
    let name = renamed(tag, pairs);
    lemma_renamed(tag, pairs);
    lemma_old_canons();
    lemma_new_canons();
    if !(forall|k: int| 0 <= k < pairs.len() ==> (#[trigger] pairs[k]).0 != tag) {
        let i = choose|k: int|
            0 <= k < pairs.len() && (#[trigger] pairs[k]).0 == tag && name == pairs[k].1;
        assert(pairs[i].1 == CANON_REMAP_V14@[i].1@);
        assert forall|k: int| 0 <= k < pairs.len() implies (#[trigger] pairs[k]).0 != name by {
            assert(pairs[k].0 == CANON_REMAP_V14@[k].0@);
        }
        lemma_not_renamed(name, pairs);
    }
}

/// The name that both renames, one after the other, give a tag.
spec fn up_to_date(tag: Seq<char>) -> Seq<char> {
    renamed(renamed(tag, pairs_view(GREAT_IDEAS_RENAMES@)), pairs_view(CANON_REMAP_V14@))
}

/// A tag that both renames gave keeps its name under both.
proof fn lemma_both_settled(tag: Seq<char>)
    ensures
        up_to_date(up_to_date(tag)) == up_to_date(tag),
{
    let ideas = pairs_view(GREAT_IDEAS_RENAMES@);
    let canon = pairs_view(CANON_REMAP_V14@);
    let middle = renamed(tag, ideas);
    let name = renamed(middle, canon);
    lemma_canon_settled(middle);
    lemma_renamed(tag, ideas);
    lemma_renamed(middle, canon);
    lemma_old_ideas();
    if forall|k: int| 0 <= k < canon.len() ==> (#[trigger] canon[k]).0 != middle {
        lemma_new_ideas();
        if !(forall|k: int| 0 <= k < ideas.len() ==> (#[trigger] ideas[k]).0 != tag) {
            let i = choose|k: int|
                0 <= k < ideas.len() && (#[trigger] ideas[k]).0 == tag && middle == ideas[k].1;
            assert(ideas[i].1 == GREAT_IDEAS_RENAMES@[i].1@);
            assert forall|k: int| 0 <= k < ideas.len() implies (#[trigger] ideas[k]).0 != middle by {
                assert(ideas[k].0 == GREAT_IDEAS_RENAMES@[k].0@);
            }
        }
        lemma_not_renamed(middle, ideas);
    } else {
        lemma_new_canons();
        let i = choose|k: int|
            0 <= k < canon.len() && (#[trigger] canon[k]).0 == middle && name == canon[k].1;
        assert(canon[i].1 == CANON_REMAP_V14@[i].1@);
        if returning(name) {
            lemma_returning_ideas();
            lemma_returning_canons();
        } else {
            assert forall|k: int| 0 <= k < ideas.len() implies (#[trigger] ideas[k]).0 != name by {
                assert(ideas[k].0 == GREAT_IDEAS_RENAMES@[k].0@);
            }
            lemma_not_renamed(name, ideas);
        }
    }
}

/// Renaming tags whose new names are all different drops none.
proof fn lemma_renamed_apart(
    tags: Seq<Seq<char>>,
    pairs: Seq<(Seq<char>, Seq<char>)>,
    names: Seq<Seq<char>>,
)
    requires
        names.len() == tags.len(),
        forall|i: int| 0 <= i < tags.len() ==> #[trigger] names[i] == renamed(tags[i], pairs),
        names.no_duplicates(),
    ensures
        renamed_tags(tags, pairs) == names,
    decreases tags.len(),
{
    if tags.len() > 0 {
        let before = names.drop_last();
        assert forall|i: int| 0 <= i < tags.len() - 1 implies #[trigger] before[i] == renamed(
            tags.drop_last()[i],
            pairs,
        ) by {
            assert(before[i] == names[i]);
        }
        lemma_renamed_apart(tags.drop_last(), pairs, before);
        let last = names[names.len() - 1];
        assert(last == renamed(tags.last(), pairs));
        assert(!before.contains(last)) by {
            if before.contains(last) {
                let k = choose|k: int| 0 <= k < before.len() && before[k] == last;
                assert(names[k] == names[names.len() - 1]);
            }
        }
        assert(before.push(last) =~= names);
    }
    assert(tags.len() == 0 ==> renamed_tags(tags, pairs) =~= names);
}

/// Bringing tags up to date twice is as good as once.
pub proof fn law_current_tags_settle(tags: Seq<Seq<char>>, schema_version: u32)
    ensures
        current_tags(current_tags(tags, schema_version), schema_version) == current_tags(
            tags,
            schema_version,
        ),
{
    let ideas = pairs_view(GREAT_IDEAS_RENAMES@);
    let canon = pairs_view(CANON_REMAP_V14@);
    if schema_version < 14 {
        let first = if schema_version < 11 {
            renamed_tags(tags, ideas)
        } else {
            tags
        };
        let done = renamed_tags(first, canon);
        law_renamed_tags_distinct(first, canon);
        assert forall|i: int| 0 <= i < done.len() implies if schema_version < 11 {
            up_to_date(#[trigger] done[i]) == done[i]
        } else {
            renamed(done[i], canon) == done[i]
        } by {
            law_renamed_tags_members(first, canon, done[i]);
            assert(done.contains(done[i]));
            let k = choose|k: int|
                0 <= k < first.len() && renamed(#[trigger] first[k], canon) == done[i];
            lemma_canon_settled(first[k]);
            if schema_version < 11 {
                law_renamed_tags_members(tags, ideas, first[k]);
                assert(first.contains(first[k]));
                let j = choose|j: int|
                    0 <= j < tags.len() && renamed(#[trigger] tags[j], ideas) == first[k];
                lemma_both_settled(tags[j]);
            }
        }
        if schema_version < 11 {
            let middle = done.map_values(|t: Seq<char>| renamed(t, ideas));
            assert forall|i: int, j: int|
                0 <= i < middle.len() && 0 <= j < middle.len() && i != j implies middle[i]
                != middle[j] by {
                assert(up_to_date(done[i]) == done[i] && up_to_date(done[j]) == done[j]);
                assert(done[i] != done[j]);
            }
            lemma_renamed_apart(done, ideas, middle);
            assert forall|i: int| 0 <= i < middle.len() implies #[trigger] done[i] == renamed(
                middle[i],
                canon,
            ) by {
                assert(up_to_date(done[i]) == done[i]);
            }
            lemma_renamed_apart(middle, canon, done);
        } else {
            lemma_renamed_apart(done, canon, done);
        }
    }
}

/// A tag gets the new name of the first renaming that names it, and keeps its own where none does.
pub proof fn law_first_renaming_counts(tag: Seq<char>, pairs: Seq<(Seq<char>, Seq<char>)>)
    ensures
        (forall|j: int| 0 <= j < pairs.len() ==> (#[trigger] pairs[j]).0 != tag) ==> renamed(
            tag,
            pairs,
        ) == tag,
        forall|i: int|
            0 <= i < pairs.len() && (#[trigger] pairs[i]).0 == tag && (forall|j: int|
                0 <= j < i ==> (#[trigger] pairs[j]).0 != tag) ==> renamed(tag, pairs)
                == pairs[i].1,
    decreases pairs.len(),
{
    if pairs.len() > 0 && pairs[0].0 != tag {
        let rest = pairs.drop_first();
        law_first_renaming_counts(tag, rest);
        if forall|j: int| 0 <= j < pairs.len() ==> (#[trigger] pairs[j]).0 != tag {
            assert forall|j: int| 0 <= j < rest.len() implies (#[trigger] rest[j]).0 != tag by {
                assert(rest[j] == pairs[j + 1]);
            }
        }
        assert forall|i: int|
            0 <= i < pairs.len() && (#[trigger] pairs[i]).0 == tag && (forall|j: int|
                0 <= j < i ==> (#[trigger] pairs[j]).0 != tag) implies renamed(tag, pairs)
            == pairs[i].1 by {
            assert(rest[i - 1] == pairs[i]);
            assert forall|j: int| 0 <= j < i - 1 implies (#[trigger] rest[j]).0 != tag by {
                assert(rest[j] == pairs[j + 1]);
            }
        }
    }
}

/// Whether names are those of renamed tags in the order in which each first occurs: `places` says
/// where.
pub open spec fn first_occurrences(
    tags: Seq<Seq<char>>,
    pairs: Seq<(Seq<char>, Seq<char>)>,
    names: Seq<Seq<char>>,
    places: Seq<int>,
) -> bool {
    &&& places.len() == names.len()
    &&& forall|i: int, j: int| 0 <= i < j < places.len() ==> places[i] < places[j]
    &&& forall|i: int|
        #![trigger places[i]]
        0 <= i < places.len() ==> 0 <= places[i] < tags.len() && names[i] == renamed(
            tags[places[i]],
            pairs,
        ) && forall|k: int|
            0 <= k < places[i] ==> renamed(#[trigger] tags[k], pairs) != names[i]
    &&& forall|k: int|
        0 <= k < tags.len() ==> names.contains(renamed(#[trigger] tags[k], pairs))
}

proof fn lemma_first_occurrences(tags: Seq<Seq<char>>, pairs: Seq<(Seq<char>, Seq<char>)>) -> (places: Seq<
    int,
>)
    ensures
        first_occurrences(tags, pairs, renamed_tags(tags, pairs), places),
    decreases tags.len(),
{
    if tags.len() == 0 {
        Seq::empty()
    } else {
        let rest = tags.drop_last();
        let last = tags.len() - 1;
        let before = renamed_tags(rest, pairs);
        let names = renamed_tags(tags, pairs);
        let held = lemma_first_occurrences(rest, pairs);
        let name = renamed(tags.last(), pairs);
        assert(tags[last] == tags.last());
        assert forall|k: int| 0 <= k < last implies #[trigger] tags[k] == rest[k] by {}
        let places = if before.contains(name) {
            held
        } else {
            held.push(last)
        };
        assert forall|i: int|
            #![trigger places[i]]
            0 <= i < places.len() implies 0 <= places[i] < tags.len() && names[i] == renamed(
            tags[places[i]],
            pairs,
        ) && forall|k: int|
            0 <= k < places[i] ==> renamed(#[trigger] tags[k], pairs) != names[i] by {
            if i < held.len() {
                assert(places[i] == held[i]);
                assert(names[i] == before[i]);
                assert forall|k: int| 0 <= k < places[i] implies renamed(#[trigger] tags[k], pairs)
                    != names[i] by {
                    assert(rest[k] == tags[k]);
                }
            } else {
                assert forall|k: int| 0 <= k < places[i] implies renamed(#[trigger] tags[k], pairs)
                    != names[i] by {
                    assert(before.contains(renamed(rest[k], pairs)));
                }
            }
        }
        assert forall|k: int| 0 <= k < tags.len() implies names.contains(
            renamed(#[trigger] tags[k], pairs),
        ) by {
            if k < last {
                assert(before.contains(renamed(rest[k], pairs)));
                let i = choose|i: int| 0 <= i < before.len() && before[i] == renamed(tags[k], pairs);
                assert(names[i] == before[i]);
            } else if before.contains(name) {
                assert(names == before);
            } else {
                assert(names[before.len() as int] == name);
            }
        }
        assert forall|i: int, j: int| 0 <= i < j < places.len() implies places[i] < places[j] by {
            assert(places[i] == held[i]);
            if j < held.len() {
                assert(places[j] == held[j]);
            }
        }
        places
    }
}

/// Renaming keeps the order: each name stands where a tag first got it, and none is lost.
pub proof fn law_renamed_tags_keep_their_order(
    tags: Seq<Seq<char>>,
    pairs: Seq<(Seq<char>, Seq<char>)>,
)
    ensures
        exists|places: Seq<int>| #[trigger]
            first_occurrences(tags, pairs, renamed_tags(tags, pairs), places),
{
    let places = lemma_first_occurrences(tags, pairs);
    assert(first_occurrences(tags, pairs, renamed_tags(tags, pairs), places));
}

/// Tags of the fourteenth archive version or a later one are current. Those of the eleventh up to it
/// need the renaming of the canon only, whichever of them it is, and older ones the renaming of the
/// great ideas first.
pub proof fn law_renamings_by_version(tags: Seq<Seq<char>>, version: u32, other: u32)
    ensures
        version >= 14 ==> current_tags(tags, version) == tags,
        11 <= version < 14 ==> current_tags(tags, version) == renamed_tags(
            tags,
            pairs_view(CANON_REMAP_V14@),
        ),
        version < 11 && 11 <= other < 14 ==> current_tags(tags, version) == current_tags(
            renamed_tags(tags, pairs_view(GREAT_IDEAS_RENAMES@)),
            other,
        ),
{
}

/// Whether a great idea has this new name.
pub open spec fn great_idea_renamed(old: Seq<char>, new: Seq<char>) -> bool {
    ||| new == "Good and Evil"@ && old == "Good"@
    ||| new == "Custom and Convention"@ && old == "Custom"@
    ||| new == "Pleasure and Pain"@ && old == "Pleasure"@
    ||| new == "Virtue and Vice"@ && old == "Virtue"@
    ||| new == "Sign and Symbol"@ && old == "Sign"@
    ||| new == "War and Peace"@ && old == "War"@
    ||| new == "Tyranny and Despotism"@ && old == "Tyranny"@
    ||| new == "Life and Death"@ && old == "Life"@
    ||| new == "Memory and Imagination"@ && old == "Memory"@
    ||| new == "Necessity and Contingency"@ && old == "Necessity"@
    ||| new == "Universal and Particular"@ && old == "Universal"@
}

/// The great ideas that are renamed, and no others.
pub proof fn law_great_ideas_are_renamed(old: Seq<char>, new: Seq<char>)
    ensures
        pairs_view(GREAT_IDEAS_RENAMES@).contains((old, new)) <==> great_idea_renamed(old, new),
{
    let pairs = pairs_view(GREAT_IDEAS_RENAMES@);
    assert(pairs[0] == ("Good"@, "Good and Evil"@));
    assert(pairs[1] == ("Custom"@, "Custom and Convention"@));
    assert(pairs[2] == ("Pleasure"@, "Pleasure and Pain"@));
    assert(pairs[3] == ("Virtue"@, "Virtue and Vice"@));
    assert(pairs[4] == ("Sign"@, "Sign and Symbol"@));
    assert(pairs[5] == ("War"@, "War and Peace"@));
    assert(pairs[6] == ("Tyranny"@, "Tyranny and Despotism"@));
    assert(pairs[7] == ("Life"@, "Life and Death"@));
    assert(pairs[8] == ("Memory"@, "Memory and Imagination"@));
    assert(pairs[9] == ("Necessity"@, "Necessity and Contingency"@));
    assert(pairs[10] == ("Universal"@, "Universal and Particular"@));
}

/// Whether an idea has this name in the canon.
pub open spec fn canon_renamed(old: Seq<char>, new: Seq<char>) -> bool {
    ||| new == "Causation"@ && old == "Cause"@
    ||| new == "Probability"@ && old == "Chance"@
    ||| new == "Freedom"@ && (old == "Liberty"@ || old == "Slavery"@)
    ||| new == "Status"@ && old == "Honor"@
    ||| new == "Virtue"@ && (old == "Virtue and Vice"@ || old == "Courage"@)
    ||| new == "Life"@ && (old == "Animal"@ || old == "Life and Death"@)
    ||| new == "Power"@ && (old == "Aristocracy"@ || old == "Monarchy"@ || old == "Oligarchy"@ || old == "Tyranny and Despotism"@)
    ||| new == "Institutions"@ && (old == "Constitution"@ || old == "Government"@ || old == "State"@ || old == "Citizen"@ || old == "Custom and Convention"@ || old == "Law"@)
    ||| new == "Reasoning"@ && (old == "Dialectic"@ || old == "Induction"@ || old == "Logic"@)
    ||| new == "Obligation"@ && old == "Duty"@
    ||| new == "Learning"@ && (old == "Education"@ || old == "Experience"@)
    ||| new == "Community"@ && old == "Family"@
    ||| new == "Beauty"@ && old == "Form"@
    ||| new == "the Sacred"@ && (old == "God"@ || old == "Religion"@ || old == "Theology"@ || old == "Prophecy"@ || old == "Immortality"@)
    ||| new == "Evidence"@ && old == "Hypothesis"@
    ||| new == "Productivity"@ && old == "Labor"@
    ||| new == "Consciousness"@ && (old == "Mind"@ || old == "Soul"@ || old == "Sense"@)
    ||| new == "Art"@ && old == "Poetry"@
    ||| new == "Markets"@ && (old == "Property"@ || old == "Wealth"@)
    ||| new == "Strategy"@ && old == "Prudence"@
    ||| new == "Justice"@ && old == "Punishment"@
    ||| new == "Conflict"@ && (old == "Revolution"@ || old == "War and Peace"@)
    ||| new == "Narrative"@ && old == "Rhetoric"@
    ||| new == "Language"@ && old == "Sign and Symbol"@
    ||| new == "Morality"@ && (old == "Sin"@ || old == "Good and Evil"@)
    ||| new == "Discipline"@ && old == "Temperance"@
    ||| new == "Judgment"@ && (old == "Wisdom"@ || old == "Opinion"@)
    ||| new == "Motivation"@ && old == "Will"@
    ||| new == "Nature"@ && old == "World"@
    ||| new == "Identity"@ && old == "Man"@
    ||| new == "Purpose"@ && old == "Happiness"@
    ||| new == "Truth"@ && old == "Knowledge"@
    ||| new == "Memory"@ && old == "Memory and Imagination"@
    ||| new == "Emotion"@ && old == "Pleasure and Pain"@
}

proof fn lemma_canon_holds(old: Seq<char>, new: Seq<char>, i: int)
    requires
        0 <= i < CANON_REMAP_V14@.len(),
        pairs_view(CANON_REMAP_V14@)[i] == (old, new),
    ensures
        pairs_view(CANON_REMAP_V14@).contains((old, new)),
{
}

proof fn lemma_canon_first_part(i: int)
    requires
        0 <= i < 15,
    ensures
        canon_renamed(CANON_REMAP_V14@[i].0@, CANON_REMAP_V14@[i].1@),
{
    let pairs = CANON_REMAP_V14@;
    if i == 0 {
        assert(pairs[0] == ("Cause", "Causation"));
    }
    if i == 1 {
        assert(pairs[1] == ("Chance", "Probability"));
    }
    if i == 2 {
        assert(pairs[2] == ("Liberty", "Freedom"));
    }
    if i == 3 {
        assert(pairs[3] == ("Honor", "Status"));
    }
    if i == 4 {
        assert(pairs[4] == ("Virtue and Vice", "Virtue"));
    }
    if i == 5 {
        assert(pairs[5] == ("Animal", "Life"));
    }
    if i == 6 {
        assert(pairs[6] == ("Aristocracy", "Power"));
    }
    if i == 7 {
        assert(pairs[7] == ("Monarchy", "Power"));
    }
    if i == 8 {
        assert(pairs[8] == ("Oligarchy", "Power"));
    }
    if i == 9 {
        assert(pairs[9] == ("Tyranny and Despotism", "Power"));
    }
    if i == 10 {
        assert(pairs[10] == ("Constitution", "Institutions"));
    }
    if i == 11 {
        assert(pairs[11] == ("Government", "Institutions"));
    }
    if i == 12 {
        assert(pairs[12] == ("State", "Institutions"));
    }
    if i == 13 {
        assert(pairs[13] == ("Citizen", "Institutions"));
    }
    if i == 14 {
        assert(pairs[14] == ("Custom and Convention", "Institutions"));
    }
}

proof fn lemma_canon_first_part_is_there(old: Seq<char>, new: Seq<char>)
    requires
        (old == "Cause"@ && new == "Causation"@)
            || (old == "Chance"@ && new == "Probability"@)
            || (old == "Liberty"@ && new == "Freedom"@)
            || (old == "Honor"@ && new == "Status"@)
            || (old == "Virtue and Vice"@ && new == "Virtue"@)
            || (old == "Animal"@ && new == "Life"@)
            || (old == "Aristocracy"@ && new == "Power"@)
            || (old == "Monarchy"@ && new == "Power"@)
            || (old == "Oligarchy"@ && new == "Power"@)
            || (old == "Tyranny and Despotism"@ && new == "Power"@)
            || (old == "Constitution"@ && new == "Institutions"@)
            || (old == "Government"@ && new == "Institutions"@)
            || (old == "State"@ && new == "Institutions"@)
            || (old == "Citizen"@ && new == "Institutions"@)
            || (old == "Custom and Convention"@ && new == "Institutions"@),
    ensures
        pairs_view(CANON_REMAP_V14@).contains((old, new)),
{
    let pairs = pairs_view(CANON_REMAP_V14@);
    if old == "Cause"@ && new == "Causation"@ {
        assert(CANON_REMAP_V14@[0] == ("Cause", "Causation"));
        lemma_canon_holds(old, new, 0);
    } else if old == "Chance"@ && new == "Probability"@ {
        assert(CANON_REMAP_V14@[1] == ("Chance", "Probability"));
        lemma_canon_holds(old, new, 1);
    } else if old == "Liberty"@ && new == "Freedom"@ {
        assert(CANON_REMAP_V14@[2] == ("Liberty", "Freedom"));
        lemma_canon_holds(old, new, 2);
    } else if old == "Honor"@ && new == "Status"@ {
        assert(CANON_REMAP_V14@[3] == ("Honor", "Status"));
        lemma_canon_holds(old, new, 3);
    } else if old == "Virtue and Vice"@ && new == "Virtue"@ {
        assert(CANON_REMAP_V14@[4] == ("Virtue and Vice", "Virtue"));
        lemma_canon_holds(old, new, 4);
    } else if old == "Animal"@ && new == "Life"@ {
        assert(CANON_REMAP_V14@[5] == ("Animal", "Life"));
        lemma_canon_holds(old, new, 5);
    } else if old == "Aristocracy"@ && new == "Power"@ {
        assert(CANON_REMAP_V14@[6] == ("Aristocracy", "Power"));
        lemma_canon_holds(old, new, 6);
    } else if old == "Monarchy"@ && new == "Power"@ {
        assert(CANON_REMAP_V14@[7] == ("Monarchy", "Power"));
        lemma_canon_holds(old, new, 7);
    } else if old == "Oligarchy"@ && new == "Power"@ {
        assert(CANON_REMAP_V14@[8] == ("Oligarchy", "Power"));
        lemma_canon_holds(old, new, 8);
    } else if old == "Tyranny and Despotism"@ && new == "Power"@ {
        assert(CANON_REMAP_V14@[9] == ("Tyranny and Despotism", "Power"));
        lemma_canon_holds(old, new, 9);
    } else if old == "Constitution"@ && new == "Institutions"@ {
        assert(CANON_REMAP_V14@[10] == ("Constitution", "Institutions"));
        lemma_canon_holds(old, new, 10);
    } else if old == "Government"@ && new == "Institutions"@ {
        assert(CANON_REMAP_V14@[11] == ("Government", "Institutions"));
        lemma_canon_holds(old, new, 11);
    } else if old == "State"@ && new == "Institutions"@ {
        assert(CANON_REMAP_V14@[12] == ("State", "Institutions"));
        lemma_canon_holds(old, new, 12);
    } else if old == "Citizen"@ && new == "Institutions"@ {
        assert(CANON_REMAP_V14@[13] == ("Citizen", "Institutions"));
        lemma_canon_holds(old, new, 13);
    } else if old == "Custom and Convention"@ && new == "Institutions"@ {
        assert(CANON_REMAP_V14@[14] == ("Custom and Convention", "Institutions"));
        lemma_canon_holds(old, new, 14);
    }
}

proof fn lemma_canon_second_part(i: int)
    requires
        15 <= i < 30,
    ensures
        canon_renamed(CANON_REMAP_V14@[i].0@, CANON_REMAP_V14@[i].1@),
{
    let pairs = CANON_REMAP_V14@;
    if i == 15 {
        assert(pairs[15] == ("Courage", "Virtue"));
    }
    if i == 16 {
        assert(pairs[16] == ("Dialectic", "Reasoning"));
    }
    if i == 17 {
        assert(pairs[17] == ("Induction", "Reasoning"));
    }
    if i == 18 {
        assert(pairs[18] == ("Logic", "Reasoning"));
    }
    if i == 19 {
        assert(pairs[19] == ("Duty", "Obligation"));
    }
    if i == 20 {
        assert(pairs[20] == ("Education", "Learning"));
    }
    if i == 21 {
        assert(pairs[21] == ("Experience", "Learning"));
    }
    if i == 22 {
        assert(pairs[22] == ("Family", "Community"));
    }
    if i == 23 {
        assert(pairs[23] == ("Form", "Beauty"));
    }
    if i == 24 {
        assert(pairs[24] == ("God", "the Sacred"));
    }
    if i == 25 {
        assert(pairs[25] == ("Religion", "the Sacred"));
    }
    if i == 26 {
        assert(pairs[26] == ("Theology", "the Sacred"));
    }
    if i == 27 {
        assert(pairs[27] == ("Prophecy", "the Sacred"));
    }
    if i == 28 {
        assert(pairs[28] == ("Immortality", "the Sacred"));
    }
    if i == 29 {
        assert(pairs[29] == ("Hypothesis", "Evidence"));
    }
}

proof fn lemma_canon_second_part_is_there(old: Seq<char>, new: Seq<char>)
    requires
        (old == "Courage"@ && new == "Virtue"@)
            || (old == "Dialectic"@ && new == "Reasoning"@)
            || (old == "Induction"@ && new == "Reasoning"@)
            || (old == "Logic"@ && new == "Reasoning"@)
            || (old == "Duty"@ && new == "Obligation"@)
            || (old == "Education"@ && new == "Learning"@)
            || (old == "Experience"@ && new == "Learning"@)
            || (old == "Family"@ && new == "Community"@)
            || (old == "Form"@ && new == "Beauty"@)
            || (old == "God"@ && new == "the Sacred"@)
            || (old == "Religion"@ && new == "the Sacred"@)
            || (old == "Theology"@ && new == "the Sacred"@)
            || (old == "Prophecy"@ && new == "the Sacred"@)
            || (old == "Immortality"@ && new == "the Sacred"@)
            || (old == "Hypothesis"@ && new == "Evidence"@),
    ensures
        pairs_view(CANON_REMAP_V14@).contains((old, new)),
{
    let pairs = pairs_view(CANON_REMAP_V14@);
    if old == "Courage"@ && new == "Virtue"@ {
        assert(CANON_REMAP_V14@[15] == ("Courage", "Virtue"));
        lemma_canon_holds(old, new, 15);
    } else if old == "Dialectic"@ && new == "Reasoning"@ {
        assert(CANON_REMAP_V14@[16] == ("Dialectic", "Reasoning"));
        lemma_canon_holds(old, new, 16);
    } else if old == "Induction"@ && new == "Reasoning"@ {
        assert(CANON_REMAP_V14@[17] == ("Induction", "Reasoning"));
        lemma_canon_holds(old, new, 17);
    } else if old == "Logic"@ && new == "Reasoning"@ {
        assert(CANON_REMAP_V14@[18] == ("Logic", "Reasoning"));
        lemma_canon_holds(old, new, 18);
    } else if old == "Duty"@ && new == "Obligation"@ {
        assert(CANON_REMAP_V14@[19] == ("Duty", "Obligation"));
        lemma_canon_holds(old, new, 19);
    } else if old == "Education"@ && new == "Learning"@ {
        assert(CANON_REMAP_V14@[20] == ("Education", "Learning"));
        lemma_canon_holds(old, new, 20);
    } else if old == "Experience"@ && new == "Learning"@ {
        assert(CANON_REMAP_V14@[21] == ("Experience", "Learning"));
        lemma_canon_holds(old, new, 21);
    } else if old == "Family"@ && new == "Community"@ {
        assert(CANON_REMAP_V14@[22] == ("Family", "Community"));
        lemma_canon_holds(old, new, 22);
    } else if old == "Form"@ && new == "Beauty"@ {
        assert(CANON_REMAP_V14@[23] == ("Form", "Beauty"));
        lemma_canon_holds(old, new, 23);
    } else if old == "God"@ && new == "the Sacred"@ {
        assert(CANON_REMAP_V14@[24] == ("God", "the Sacred"));
        lemma_canon_holds(old, new, 24);
    } else if old == "Religion"@ && new == "the Sacred"@ {
        assert(CANON_REMAP_V14@[25] == ("Religion", "the Sacred"));
        lemma_canon_holds(old, new, 25);
    } else if old == "Theology"@ && new == "the Sacred"@ {
        assert(CANON_REMAP_V14@[26] == ("Theology", "the Sacred"));
        lemma_canon_holds(old, new, 26);
    } else if old == "Prophecy"@ && new == "the Sacred"@ {
        assert(CANON_REMAP_V14@[27] == ("Prophecy", "the Sacred"));
        lemma_canon_holds(old, new, 27);
    } else if old == "Immortality"@ && new == "the Sacred"@ {
        assert(CANON_REMAP_V14@[28] == ("Immortality", "the Sacred"));
        lemma_canon_holds(old, new, 28);
    } else if old == "Hypothesis"@ && new == "Evidence"@ {
        assert(CANON_REMAP_V14@[29] == ("Hypothesis", "Evidence"));
        lemma_canon_holds(old, new, 29);
    }
}

proof fn lemma_canon_third_part(i: int)
    requires
        30 <= i < 45,
    ensures
        canon_renamed(CANON_REMAP_V14@[i].0@, CANON_REMAP_V14@[i].1@),
{
    let pairs = CANON_REMAP_V14@;
    if i == 30 {
        assert(pairs[30] == ("Labor", "Productivity"));
    }
    if i == 31 {
        assert(pairs[31] == ("Mind", "Consciousness"));
    }
    if i == 32 {
        assert(pairs[32] == ("Soul", "Consciousness"));
    }
    if i == 33 {
        assert(pairs[33] == ("Sense", "Consciousness"));
    }
    if i == 34 {
        assert(pairs[34] == ("Poetry", "Art"));
    }
    if i == 35 {
        assert(pairs[35] == ("Property", "Markets"));
    }
    if i == 36 {
        assert(pairs[36] == ("Wealth", "Markets"));
    }
    if i == 37 {
        assert(pairs[37] == ("Prudence", "Strategy"));
    }
    if i == 38 {
        assert(pairs[38] == ("Punishment", "Justice"));
    }
    if i == 39 {
        assert(pairs[39] == ("Revolution", "Conflict"));
    }
    if i == 40 {
        assert(pairs[40] == ("Rhetoric", "Narrative"));
    }
    if i == 41 {
        assert(pairs[41] == ("Sign and Symbol", "Language"));
    }
    if i == 42 {
        assert(pairs[42] == ("Sin", "Morality"));
    }
    if i == 43 {
        assert(pairs[43] == ("Temperance", "Discipline"));
    }
    if i == 44 {
        assert(pairs[44] == ("Wisdom", "Judgment"));
    }
}

proof fn lemma_canon_third_part_is_there(old: Seq<char>, new: Seq<char>)
    requires
        (old == "Labor"@ && new == "Productivity"@)
            || (old == "Mind"@ && new == "Consciousness"@)
            || (old == "Soul"@ && new == "Consciousness"@)
            || (old == "Sense"@ && new == "Consciousness"@)
            || (old == "Poetry"@ && new == "Art"@)
            || (old == "Property"@ && new == "Markets"@)
            || (old == "Wealth"@ && new == "Markets"@)
            || (old == "Prudence"@ && new == "Strategy"@)
            || (old == "Punishment"@ && new == "Justice"@)
            || (old == "Revolution"@ && new == "Conflict"@)
            || (old == "Rhetoric"@ && new == "Narrative"@)
            || (old == "Sign and Symbol"@ && new == "Language"@)
            || (old == "Sin"@ && new == "Morality"@)
            || (old == "Temperance"@ && new == "Discipline"@)
            || (old == "Wisdom"@ && new == "Judgment"@),
    ensures
        pairs_view(CANON_REMAP_V14@).contains((old, new)),
{
    let pairs = pairs_view(CANON_REMAP_V14@);
    if old == "Labor"@ && new == "Productivity"@ {
        assert(CANON_REMAP_V14@[30] == ("Labor", "Productivity"));
        lemma_canon_holds(old, new, 30);
    } else if old == "Mind"@ && new == "Consciousness"@ {
        assert(CANON_REMAP_V14@[31] == ("Mind", "Consciousness"));
        lemma_canon_holds(old, new, 31);
    } else if old == "Soul"@ && new == "Consciousness"@ {
        assert(CANON_REMAP_V14@[32] == ("Soul", "Consciousness"));
        lemma_canon_holds(old, new, 32);
    } else if old == "Sense"@ && new == "Consciousness"@ {
        assert(CANON_REMAP_V14@[33] == ("Sense", "Consciousness"));
        lemma_canon_holds(old, new, 33);
    } else if old == "Poetry"@ && new == "Art"@ {
        assert(CANON_REMAP_V14@[34] == ("Poetry", "Art"));
        lemma_canon_holds(old, new, 34);
    } else if old == "Property"@ && new == "Markets"@ {
        assert(CANON_REMAP_V14@[35] == ("Property", "Markets"));
        lemma_canon_holds(old, new, 35);
    } else if old == "Wealth"@ && new == "Markets"@ {
        assert(CANON_REMAP_V14@[36] == ("Wealth", "Markets"));
        lemma_canon_holds(old, new, 36);
    } else if old == "Prudence"@ && new == "Strategy"@ {
        assert(CANON_REMAP_V14@[37] == ("Prudence", "Strategy"));
        lemma_canon_holds(old, new, 37);
    } else if old == "Punishment"@ && new == "Justice"@ {
        assert(CANON_REMAP_V14@[38] == ("Punishment", "Justice"));
        lemma_canon_holds(old, new, 38);
    } else if old == "Revolution"@ && new == "Conflict"@ {
        assert(CANON_REMAP_V14@[39] == ("Revolution", "Conflict"));
        lemma_canon_holds(old, new, 39);
    } else if old == "Rhetoric"@ && new == "Narrative"@ {
        assert(CANON_REMAP_V14@[40] == ("Rhetoric", "Narrative"));
        lemma_canon_holds(old, new, 40);
    } else if old == "Sign and Symbol"@ && new == "Language"@ {
        assert(CANON_REMAP_V14@[41] == ("Sign and Symbol", "Language"));
        lemma_canon_holds(old, new, 41);
    } else if old == "Sin"@ && new == "Morality"@ {
        assert(CANON_REMAP_V14@[42] == ("Sin", "Morality"));
        lemma_canon_holds(old, new, 42);
    } else if old == "Temperance"@ && new == "Discipline"@ {
        assert(CANON_REMAP_V14@[43] == ("Temperance", "Discipline"));
        lemma_canon_holds(old, new, 43);
    } else if old == "Wisdom"@ && new == "Judgment"@ {
        assert(CANON_REMAP_V14@[44] == ("Wisdom", "Judgment"));
        lemma_canon_holds(old, new, 44);
    }
}

proof fn lemma_canon_fourth_part(i: int)
    requires
        45 <= i < 58,
    ensures
        canon_renamed(CANON_REMAP_V14@[i].0@, CANON_REMAP_V14@[i].1@),
{
    let pairs = CANON_REMAP_V14@;
    if i == 45 {
        assert(pairs[45] == ("Opinion", "Judgment"));
    }
    if i == 46 {
        assert(pairs[46] == ("Will", "Motivation"));
    }
    if i == 47 {
        assert(pairs[47] == ("World", "Nature"));
    }
    if i == 48 {
        assert(pairs[48] == ("Man", "Identity"));
    }
    if i == 49 {
        assert(pairs[49] == ("Good and Evil", "Morality"));
    }
    if i == 50 {
        assert(pairs[50] == ("Happiness", "Purpose"));
    }
    if i == 51 {
        assert(pairs[51] == ("Knowledge", "Truth"));
    }
    if i == 52 {
        assert(pairs[52] == ("Law", "Institutions"));
    }
    if i == 53 {
        assert(pairs[53] == ("Life and Death", "Life"));
    }
    if i == 54 {
        assert(pairs[54] == ("Memory and Imagination", "Memory"));
    }
    if i == 55 {
        assert(pairs[55] == ("Pleasure and Pain", "Emotion"));
    }
    if i == 56 {
        assert(pairs[56] == ("Slavery", "Freedom"));
    }
    if i == 57 {
        assert(pairs[57] == ("War and Peace", "Conflict"));
    }
}

proof fn lemma_canon_fourth_part_is_there(old: Seq<char>, new: Seq<char>)
    requires
        (old == "Opinion"@ && new == "Judgment"@)
            || (old == "Will"@ && new == "Motivation"@)
            || (old == "World"@ && new == "Nature"@)
            || (old == "Man"@ && new == "Identity"@)
            || (old == "Good and Evil"@ && new == "Morality"@)
            || (old == "Happiness"@ && new == "Purpose"@)
            || (old == "Knowledge"@ && new == "Truth"@)
            || (old == "Law"@ && new == "Institutions"@)
            || (old == "Life and Death"@ && new == "Life"@)
            || (old == "Memory and Imagination"@ && new == "Memory"@)
            || (old == "Pleasure and Pain"@ && new == "Emotion"@)
            || (old == "Slavery"@ && new == "Freedom"@)
            || (old == "War and Peace"@ && new == "Conflict"@),
    ensures
        pairs_view(CANON_REMAP_V14@).contains((old, new)),
{
    let pairs = pairs_view(CANON_REMAP_V14@);
    if old == "Opinion"@ && new == "Judgment"@ {
        assert(CANON_REMAP_V14@[45] == ("Opinion", "Judgment"));
        lemma_canon_holds(old, new, 45);
    } else if old == "Will"@ && new == "Motivation"@ {
        assert(CANON_REMAP_V14@[46] == ("Will", "Motivation"));
        lemma_canon_holds(old, new, 46);
    } else if old == "World"@ && new == "Nature"@ {
        assert(CANON_REMAP_V14@[47] == ("World", "Nature"));
        lemma_canon_holds(old, new, 47);
    } else if old == "Man"@ && new == "Identity"@ {
        assert(CANON_REMAP_V14@[48] == ("Man", "Identity"));
        lemma_canon_holds(old, new, 48);
    } else if old == "Good and Evil"@ && new == "Morality"@ {
        assert(CANON_REMAP_V14@[49] == ("Good and Evil", "Morality"));
        lemma_canon_holds(old, new, 49);
    } else if old == "Happiness"@ && new == "Purpose"@ {
        assert(CANON_REMAP_V14@[50] == ("Happiness", "Purpose"));
        lemma_canon_holds(old, new, 50);
    } else if old == "Knowledge"@ && new == "Truth"@ {
        assert(CANON_REMAP_V14@[51] == ("Knowledge", "Truth"));
        lemma_canon_holds(old, new, 51);
    } else if old == "Law"@ && new == "Institutions"@ {
        assert(CANON_REMAP_V14@[52] == ("Law", "Institutions"));
        lemma_canon_holds(old, new, 52);
    } else if old == "Life and Death"@ && new == "Life"@ {
        assert(CANON_REMAP_V14@[53] == ("Life and Death", "Life"));
        lemma_canon_holds(old, new, 53);
    } else if old == "Memory and Imagination"@ && new == "Memory"@ {
        assert(CANON_REMAP_V14@[54] == ("Memory and Imagination", "Memory"));
        lemma_canon_holds(old, new, 54);
    } else if old == "Pleasure and Pain"@ && new == "Emotion"@ {
        assert(CANON_REMAP_V14@[55] == ("Pleasure and Pain", "Emotion"));
        lemma_canon_holds(old, new, 55);
    } else if old == "Slavery"@ && new == "Freedom"@ {
        assert(CANON_REMAP_V14@[56] == ("Slavery", "Freedom"));
        lemma_canon_holds(old, new, 56);
    } else if old == "War and Peace"@ && new == "Conflict"@ {
        assert(CANON_REMAP_V14@[57] == ("War and Peace", "Conflict"));
        lemma_canon_holds(old, new, 57);
    }
}

/// The ideas that the canon renames, and no others.
pub proof fn law_canon_is_renamed(old: Seq<char>, new: Seq<char>)
    ensures
        pairs_view(CANON_REMAP_V14@).contains((old, new)) <==> canon_renamed(old, new),
{
    let pairs = pairs_view(CANON_REMAP_V14@);
    if pairs.contains((old, new)) {
        let i = choose|i: int| 0 <= i < pairs.len() && pairs[i] == (old, new);
        if i < 15 {
            lemma_canon_first_part(i);
        } else if i < 30 {
            lemma_canon_second_part(i);
        } else if i < 45 {
            lemma_canon_third_part(i);
        } else {
            lemma_canon_fourth_part(i);
        }
    }
    if canon_renamed(old, new) {
        if (old == "Cause"@ && new == "Causation"@)
            || (old == "Chance"@ && new == "Probability"@)
            || (old == "Liberty"@ && new == "Freedom"@)
            || (old == "Honor"@ && new == "Status"@)
            || (old == "Virtue and Vice"@ && new == "Virtue"@)
            || (old == "Animal"@ && new == "Life"@)
            || (old == "Aristocracy"@ && new == "Power"@)
            || (old == "Monarchy"@ && new == "Power"@)
            || (old == "Oligarchy"@ && new == "Power"@)
            || (old == "Tyranny and Despotism"@ && new == "Power"@)
            || (old == "Constitution"@ && new == "Institutions"@)
            || (old == "Government"@ && new == "Institutions"@)
            || (old == "State"@ && new == "Institutions"@)
            || (old == "Citizen"@ && new == "Institutions"@)
            || (old == "Custom and Convention"@ && new == "Institutions"@) {
            lemma_canon_first_part_is_there(old, new);
        } else if (old == "Courage"@ && new == "Virtue"@)
            || (old == "Dialectic"@ && new == "Reasoning"@)
            || (old == "Induction"@ && new == "Reasoning"@)
            || (old == "Logic"@ && new == "Reasoning"@)
            || (old == "Duty"@ && new == "Obligation"@)
            || (old == "Education"@ && new == "Learning"@)
            || (old == "Experience"@ && new == "Learning"@)
            || (old == "Family"@ && new == "Community"@)
            || (old == "Form"@ && new == "Beauty"@)
            || (old == "God"@ && new == "the Sacred"@)
            || (old == "Religion"@ && new == "the Sacred"@)
            || (old == "Theology"@ && new == "the Sacred"@)
            || (old == "Prophecy"@ && new == "the Sacred"@)
            || (old == "Immortality"@ && new == "the Sacred"@)
            || (old == "Hypothesis"@ && new == "Evidence"@) {
            lemma_canon_second_part_is_there(old, new);
        } else if (old == "Labor"@ && new == "Productivity"@)
            || (old == "Mind"@ && new == "Consciousness"@)
            || (old == "Soul"@ && new == "Consciousness"@)
            || (old == "Sense"@ && new == "Consciousness"@)
            || (old == "Poetry"@ && new == "Art"@)
            || (old == "Property"@ && new == "Markets"@)
            || (old == "Wealth"@ && new == "Markets"@)
            || (old == "Prudence"@ && new == "Strategy"@)
            || (old == "Punishment"@ && new == "Justice"@)
            || (old == "Revolution"@ && new == "Conflict"@)
            || (old == "Rhetoric"@ && new == "Narrative"@)
            || (old == "Sign and Symbol"@ && new == "Language"@)
            || (old == "Sin"@ && new == "Morality"@)
            || (old == "Temperance"@ && new == "Discipline"@)
            || (old == "Wisdom"@ && new == "Judgment"@) {
            lemma_canon_third_part_is_there(old, new);
        } else {
            lemma_canon_fourth_part_is_there(old, new);
        }
    }
}

} // verus!
