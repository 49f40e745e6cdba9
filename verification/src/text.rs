//! Text helpers shared by the rest of the crate.

use std::fmt::Display;
use vstd::prelude::*;
use vstd::string::to_string_from_display_ensures;
use vstd::string::StringExecFns;

verus! {

/// What `{:?}` formatting writes for a string: the text between double quotes,
/// with the characters that need it escaped.
pub uninterp spec fn debug_quoted(text: Seq<char>) -> Seq<char>;

/// The texts of `parts` in order, with `separator` between neighbours.
pub open spec fn joined(parts: Seq<Seq<char>>, separator: Seq<char>) -> Seq<char>
    decreases parts.len(),
{
    if parts.len() == 0 {
        Seq::empty()
    } else if parts.len() == 1 {
        parts[0]
    } else {
        joined(parts.drop_last(), separator) + separator + parts.last()
    }
}

/// `<str as PartialEq>::eq`: two string slices are equal exactly when they
/// hold the same characters.
#[verifier::external_body]
pub(crate) fn same_text(left: &str, right: &str) -> (same: bool)
    ensures
        same == (left@ == right@),
{
    left == right
}

/// `<str as Debug>::fmt`, through `format!`: the result is a function of the
/// text alone, named by [`debug_quoted`].
#[verifier::external_body]
pub(crate) fn debug_quote(text: &str) -> (quoted: String)
    ensures
        quoted@ == debug_quoted(text@),
{
    format!("{:?}", text)
}

/// Joins `parts` with `separator` between neighbours.
pub fn join(parts: &Vec<&str>, separator: &str) -> (text: String)
    ensures
        text@ == joined(parts@.map_values(|part: &str| part@), separator@),
{
    let ghost views = parts@.map_values(|part: &str| part@);
    let mut text = String::new();
    let mut i: usize = 0;
    while i < parts.len()
        invariant
            i <= parts.len(),
            views == parts@.map_values(|part: &str| part@),
            text@ == joined(views.take(i as int), separator@),
        decreases parts.len() - i,
    {
        proof {
            assert(views.take(i + 1).drop_last() =~= views.take(i as int));
            assert(views.take(i + 1).last() == parts@[i as int]@);
        }
        if i > 0 {
            text.append(separator);
        }
        text.append(parts[i]);
        i += 1;
    }
    proof {
        assert(views.take(parts.len() as int) =~= views);
    }
    text
}

/// The first `n` of `entries`, each a name and the text of its value, as
/// they are shown: `name: value` for each, with `, ` ahead of the first and
/// nothing between one and the next.
pub open spec fn shown_entries(entries: Seq<(Seq<char>, Seq<char>)>, n: int) -> Seq<char>
    decreases n,
{
    if n <= 0 {
        Seq::empty()
    } else if n == 1 {
        ", "@ + entries[0].0 + ": "@ + entries[0].1
    } else {
        shown_entries(entries, n - 1) + entries[n - 1].0 + ": "@ + entries[n - 1].1
    }
}

/// The entries as they are shown, between braces.
pub open spec fn shown(entries: Seq<(Seq<char>, Seq<char>)>) -> Seq<char> {
    "{"@ + shown_entries(entries, entries.len() as int) + "}"@
}

/// Entries of borrowed names and values as pairs of name and value.
pub open spec fn plain<V>(entries: Seq<(&'static str, &V)>) -> Seq<(Seq<char>, V)> {
    entries.map_values(|entry: (&'static str, &V)| (entry.0@, *entry.1))
}

/// Whether `texts` holds, for each of `entries`, a text that its value's
/// `Display` gives, and `text` is what the entries are shown as with them.
pub open spec fn shows<V: Display>(
    entries: Seq<(Seq<char>, V)>,
    texts: Seq<String>,
    text: Seq<char>,
) -> bool {
    &&& texts.len() == entries.len()
    &&& forall|i: int|
        0 <= i < entries.len() ==> to_string_from_display_ensures::<V>(
            &(#[trigger] entries[i]).1,
            texts[i],
        )
    &&& text == shown(Seq::new(entries.len(), |i: int| (entries[i].0, texts[i]@)))
}

/// Shows the entries of a dictionary between braces, each as its name, `: `
/// and what the `Display` of its value gives.
pub fn show<V: Display>(entries: &Vec<(&'static str, &V)>) -> (text: String)
    ensures
        exists|texts: Seq<String>| #[trigger] shows(plain(entries@), texts, text@),
{
    let ghost all = plain(entries@);
    let ghost mut texts: Seq<String> = Seq::empty();
    let mut text = String::from_str("{");
    let mut i: usize = 0;
    while i < entries.len()
        invariant
            i <= entries.len(),
            all == plain(entries@),
            texts.len() == i,
            forall|k: int|
                0 <= k < i ==> to_string_from_display_ensures::<V>(&(#[trigger] all[k]).1, texts[k]),
            text@ == "{"@ + shown_entries(
                Seq::new(i as nat, |k: int| (all[k].0, texts[k]@)),
                i as int,
            ),
        decreases entries.len() - i,
    {
        let ghost before = Seq::new(i as nat, |k: int| (all[k].0, texts[k]@));
        let ghost so_far = shown_entries(before, i as int);
        let (name, value) = entries[i];
        let value_text = value.to_string();
        if i == 0 {
            text.append(", ");
        }
        text.append(name);
        text.append(": ");
        text.append(value_text.as_str());
        proof {
            texts = texts.push(value_text);
            let after = Seq::new((i + 1) as nat, |k: int| (all[k].0, texts[k]@));
            lemma_shown_entries_prefix(before, after, i as int);
            assert(after[i as int] == (name@, value_text@));
            if i == 0 {
                assert(text@ =~= "{"@ + (", "@ + name@ + ": "@ + value_text@));
            } else {
                assert(text@ =~= "{"@ + (so_far + name@ + ": "@ + value_text@));
            }
        }
        i += 1;
    }
    text.append("}");
    proof {
        assert(texts.len() == all.len());
        assert(shows(all, texts, text@));
    }
    text
}

/// What the first `n` entries are shown as does not depend on what follows
/// them.
proof fn lemma_shown_entries_prefix(
    entries: Seq<(Seq<char>, Seq<char>)>,
    longer: Seq<(Seq<char>, Seq<char>)>,
    n: int,
)
    requires
        0 <= n <= entries.len() <= longer.len(),
        forall|k: int| 0 <= k < entries.len() ==> entries[k] == longer[k],
    ensures
        shown_entries(entries, n) == shown_entries(longer, n),
    decreases n,
{
    if n > 1 {
        lemma_shown_entries_prefix(entries, longer, n - 1);
    }
}

} // verus!
