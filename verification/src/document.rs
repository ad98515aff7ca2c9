//! The text of a configuration file as a list of sections.

use crate::config;
use vstd::prelude::*;
use vstd::string::*;

verus! {

/// A section of an INI file: its header, or none for the keys that stand before
/// the first header, and its keys with their values in the order of the file.
pub type Section = (Option<String>, Vec<(String, String)>);

/// The texts of keys and values.
pub open spec fn entry_texts(entries: Seq<(String, String)>) -> Seq<(Seq<char>, Seq<char>)> {
    entries.map_values(|e: (String, String)| (e.0@, e.1@))
}

/// The texts of a section.
pub open spec fn section_text(section: Section) -> (
    Option<Seq<char>>,
    Seq<(Seq<char>, Seq<char>)>,
) {
    (config::optional_text(section.0), entry_texts(section.1@))
}

/// The texts of a list of sections.
pub open spec fn section_texts(sections: Seq<Section>) -> Seq<
    (Option<Seq<char>>, Seq<(Seq<char>, Seq<char>)>),
> {
    sections.map_values(|s: Section| section_text(s))
}

/// The sections of a document, or the message of the parser.
pub open spec fn document_text(document: Result<Vec<Section>, String>) -> Result<
    Seq<(Option<Seq<char>>, Seq<(Seq<char>, Seq<char>)>)>,
    Seq<char>,
> {
    match document {
        Ok(sections) => Ok(section_texts(sections@)),
        Err(message) => Err(message@),
    }
}

/// What the INI parser makes of a text: the sections in the order of their
/// headers, each with its keys and values, or the message of its error.
pub uninterp spec fn ini_document(text: Seq<char>) -> Result<
    Seq<(Option<Seq<char>>, Seq<(Seq<char>, Seq<char>)>)>,
    Seq<char>,
>;

/// Calls `ini::Ini::load_from_str` and copies what the parsed document's
/// iterators yield: for each section its name and its pairs of key and value, in
/// order. The contract claims that the result, sections or message, depends on
/// the text alone; it says nothing of the grammar.
#[verifier::external_body]
pub(crate) fn read_ini(text: &str) -> (r: Result<Vec<Section>, String>)
    ensures
        document_text(r) == ini_document(text@),
{
    let document = ini::Ini::load_from_str(text).map_err(|e| e.to_string())?;
    Ok(
        document.iter().map(
            |(name, properties)|
                (
                    name.map(str::to_string),
                    properties.iter().map(|(k, v)| (k.to_string(), v.to_string())).collect(),
                ),
        ).collect(),
    )
}

/// The value of the first entry under `key`.
pub open spec fn lookup(entries: Seq<(Seq<char>, Seq<char>)>, key: Seq<char>) -> Option<Seq<char>>
    decreases entries.len(),
{
    if entries.len() == 0 {
        None
    } else if entries.first().0 == key {
        Some(entries.first().1)
    } else {
        lookup(entries.drop_first(), key)
    }
}

/// Finds the value of the first entry under `key`.
pub fn get<'a>(entries: &'a Vec<(String, String)>, key: &str) -> (r: Option<&'a str>)
    ensures
        match r {
            Some(v) => lookup(entry_texts(entries@), key@) == Some(v@),
            None => lookup(entry_texts(entries@), key@) is None,
        },
{
    let ghost all = entry_texts(entries@);
    let mut i: usize = 0;
    assert(all.skip(0) =~= all);
    while i < entries.len()
        invariant
            i <= entries.len(),
            all == entry_texts(entries@),
            lookup(all, key@) == lookup(all.skip(i as int), key@),
        decreases entries.len() - i,
    {
        assert(all[i as int] == (entries@[i as int].0@, entries@[i as int].1@));
        assert(all.skip(i as int).drop_first() =~= all.skip(i + 1));
        if crate::text::same_text(entries[i].0.as_str(), key) {
            return Some(entries[i].1.as_str());
        }
        i = i + 1;
    }
    None
}

/// Whether the entry at a position is the first one under `key`.
pub open spec fn is_first_under(
    entries: Seq<(Seq<char>, Seq<char>)>,
    key: Seq<char>,
    i: int,
) -> bool {
    &&& 0 <= i < entries.len()
    &&& entries[i].0 == key
    &&& forall|j: int| 0 <= j < i ==> (#[trigger] entries[j]).0 != key
}

/// Whether no entry stands under `key`.
pub open spec fn lacks(entries: Seq<(Seq<char>, Seq<char>)>, key: Seq<char>) -> bool {
    forall|i: int| 0 <= i < entries.len() ==> (#[trigger] entries[i]).0 != key
}

/// The value of a key is the one that its first entry writes; a key without an entry has
/// none.
pub proof fn first_entry_counts(
    entries: Seq<(Seq<char>, Seq<char>)>,
    key: Seq<char>,
    value: Seq<char>,
)
    ensures
        lookup(entries, key) is None <==> lacks(entries, key),
        lookup(entries, key) == Some(value) <==> exists|i: int| #[trigger]
            is_first_under(entries, key, i) && entries[i].1 == value,
    decreases entries.len(),
{
    if entries.len() > 0 {
        let rest = entries.drop_first();
        first_entry_counts(rest, key, value);
        if entries.first().0 == key {
            assert(is_first_under(entries, key, 0));
            assert(!lacks(entries, key)) by {
                assert(entries[0].0 == key);
            }
        } else {
            assert forall|i: int| is_first_under(rest, key, i) implies is_first_under(
                entries,
                key,
                i + 1,
            ) by {
                assert forall|j: int| 0 <= j < i + 1 implies (#[trigger] entries[j]).0 != key by {
                    if j > 0 {
                        assert(rest[j - 1] == entries[j]);
                    }
                }
            }
            assert forall|i: int| is_first_under(entries, key, i) implies is_first_under(
                rest,
                key,
                i - 1,
            ) && rest[i - 1] == entries[i] by {
                assert(entries[0].0 != key);
                assert forall|j: int| 0 <= j < i - 1 implies (#[trigger] rest[j]).0 != key by {
                    assert(rest[j] == entries[j + 1]);
                }
            }
            if lookup(rest, key) == Some(value) {
                let i = choose|i: int| #[trigger]
                    is_first_under(rest, key, i) && rest[i].1 == value;
                assert(is_first_under(entries, key, i + 1));
                assert(entries[i + 1] == rest[i]);
            }
            if lacks(rest, key) {
                assert forall|i: int| 0 <= i < entries.len() implies (#[trigger] entries[i]).0
                    != key by {
                    if i > 0 {
                        assert(rest[i - 1] == entries[i]);
                    }
                }
            }
            if lacks(entries, key) {
                assert forall|i: int| 0 <= i < rest.len() implies (#[trigger] rest[i]).0 != key by {
                    assert(rest[i] == entries[i + 1]);
                }
            }
        }
    }
}

/// The texts of a document are those of its sections, and the texts of a section are its
/// header and its keys with their values, all in order.
pub proof fn texts_show_every_entry(sections: Vec<Section>, message: String, i: int, k: int)
    ensures
        document_text(Err(message)) == Err::<
            Seq<(Option<Seq<char>>, Seq<(Seq<char>, Seq<char>)>)>,
            Seq<char>,
        >(message@),
        document_text(Ok(sections)) is Ok,
        document_text(Ok(sections))->Ok_0.len() == sections@.len(),
        0 <= i < sections@.len() ==> {
            let shown = document_text(Ok(sections))->Ok_0[i];
            let entries = sections@[i].1@;
            &&& shown.0 is Some <==> sections@[i].0 is Some
            &&& sections@[i].0 is Some ==> shown.0->0 == sections@[i].0->0@
            &&& shown.1.len() == entries.len()
            &&& 0 <= k < entries.len() ==> shown.1[k].0 == entries[k].0@ && shown.1[k].1
                == entries[k].1@
        },
{
}

} // verus!
