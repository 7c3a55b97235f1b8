//! Identifier conventions: case conversion and the names of relations.

use heck::ToSnakeCase;
use heck::ToUpperCamelCase;
use vstd::prelude::*;
use vstd::string::*;

verus! {

/// What `heck` gives for a text in snake case.
pub uninterp spec fn snake_case(text: Seq<char>) -> Seq<char>;

/// What `heck` gives for a text in upper camel case.
pub uninterp spec fn upper_camel_case(text: Seq<char>) -> Seq<char>;

/// Calls `heck::ToSnakeCase::to_snake_case` on `text`. The conversion reads
/// nothing but its argument, so its result is named by [`snake_case`]; what
/// the result holds is not stated here.
#[verifier::external_body]
pub(crate) fn to_snake_case(text: &str) -> (converted: String)
    ensures
        converted@ == snake_case(text@),
{
    text.to_snake_case()
}

/// Calls `heck::ToUpperCamelCase::to_upper_camel_case` on `text`. The
/// conversion reads nothing but its argument, so its result is named by
/// [`upper_camel_case`]; what the result holds is not stated here.
#[verifier::external_body]
pub(crate) fn to_upper_camel_case(text: &str) -> (converted: String)
    ensures
        converted@ == upper_camel_case(text@),
{
    text.to_upper_camel_case()
}

/// The suffix by which a column names the key of another table.
pub open spec fn id_suffix() -> Seq<char> {
    seq!['_', 'i', 'd']
}

/// `text` ends in `_id`.
pub open spec fn has_id_suffix(text: Seq<char>) -> bool {
    text.len() >= 3 && text.subrange(text.len() - 3, text.len() as int) == id_suffix()
}

/// `text` without a trailing `_id`.
pub open spec fn without_id_suffix(text: Seq<char>) -> Seq<char> {
    if has_id_suffix(text) {
        text.subrange(0, text.len() - 3)
    } else {
        text
    }
}

/// Drops a trailing `_id` from `text`.
pub fn strip_id_suffix(text: &String) -> (stripped: String)
    ensures
        stripped@ == without_id_suffix(text@),
{
    let s = text.as_str();
    let len = s.unicode_len();
    if len >= 3 && s.get_char(len - 3) == '_' && s.get_char(len - 2) == 'i' && s.get_char(len - 1)
        == 'd' {
        assert(text@.subrange(len - 3, len as int) =~= id_suffix());
        String::from_str(s.substring_char(0, len - 3))
    } else {
        proof {
            if text@.len() >= 3 {
                let tail = text@.subrange(text@.len() - 3, text@.len() as int);
                assert(tail[0] == text@[len - 3]);
                assert(tail[1] == text@[len - 2]);
                assert(tail[2] == text@[len - 1]);
            }
        }
        text.clone()
    }
}

/// The parts joined by `_`, in order.
pub open spec fn joined(parts: Seq<Seq<char>>) -> Seq<char>
    decreases parts.len(),
{
    if parts.len() == 0 {
        Seq::empty()
    } else if parts.len() == 1 {
        parts[0]
    } else {
        joined(parts.drop_last()) + seq!['_'] + parts.last()
    }
}

/// The stem of a relation's name: each column in snake case without a
/// trailing `_id`, joined by `_`.
pub open spec fn relation_stem(columns: Seq<Seq<char>>) -> Seq<char> {
    joined(columns.map_values(|c: Seq<char>| without_id_suffix(snake_case(c))))
}

/// The name of the relation that the columns `columns` of its owner hold
/// towards the entity whose module is `module`.
pub open spec fn relation_name_of(columns: Seq<Seq<char>>, module: Seq<char>) -> Seq<char> {
    relation_stem(columns) + seq!['_'] + module
}

/// The views of a list of strings.
pub open spec fn texts(list: Seq<String>) -> Seq<Seq<char>> {
    list.map_values(|s: String| s@)
}

/// The views of a list with one more string are those of the list with one
/// more view.
pub proof fn lemma_texts_push(list: Seq<String>, last: String)
    ensures
        texts(list.push(last)) == texts(list).push(last@),
{
    assert(texts(list.push(last)) =~= texts(list).push(last@));
}

/// A copy of a list of strings.
pub fn copy_texts(list: &Vec<String>) -> (copy: Vec<String>)
    ensures
        texts(copy@) == texts(list@),
{
    let mut copy: Vec<String> = Vec::new();
    let mut i: usize = 0;
    while i < list.len()
        invariant
            0 <= i <= list.len(),
            texts(copy@) == texts(list@).take(i as int),
        decreases list.len() - i,
    {
        let item = list[i].clone();
        proof {
            lemma_texts_push(copy@, item);
            assert(texts(list@).take(i as int).push(item@) =~= texts(list@).take(i + 1));
        }
        copy.push(item);
        i += 1;
    }
    assert(texts(list@).take(list.len() as int) =~= texts(list@));
    copy
}

/// Each text of the list in snake case.
pub open spec fn snake_cases(list: Seq<Seq<char>>) -> Seq<Seq<char>> {
    list.map_values(|t: Seq<char>| snake_case(t))
}

/// Each string of the list in snake case.
pub fn to_snake_cases(list: &Vec<String>) -> (converted: Vec<String>)
    ensures
        texts(converted@) == snake_cases(texts(list@)),
{
    let mut converted: Vec<String> = Vec::new();
    let mut i: usize = 0;
    while i < list.len()
        invariant
            0 <= i <= list.len(),
            texts(converted@) == snake_cases(texts(list@)).take(i as int),
        decreases list.len() - i,
    {
        let item = to_snake_case(list[i].as_str());
        proof {
            lemma_texts_push(converted@, item);
            assert(snake_cases(texts(list@)).take(i as int).push(item@) =~= snake_cases(
                texts(list@),
            ).take(i + 1));
        }
        converted.push(item);
        i += 1;
    }
    assert(snake_cases(texts(list@)).take(list.len() as int) =~= snake_cases(texts(list@)));
    converted
}

/// Names the relation held by `columns` towards the entity of `module`.
pub fn relation_name(columns: &Vec<String>, module: &String) -> (name: String)
    ensures
        name@ == relation_name_of(texts(columns@), module@),
{
    let mut name = String::new();
    let ghost parts = texts(columns@).map_values(|c: Seq<char>| without_id_suffix(snake_case(c)));
    let mut i: usize = 0;
    while i < columns.len()
        invariant
            0 <= i <= columns.len(),
            parts == texts(columns@).map_values(|c: Seq<char>| without_id_suffix(snake_case(c))),
            name@ == joined(parts.take(i as int)),
        decreases columns.len() - i,
    {
        let snake = to_snake_case(columns[i].as_str());
        let part = strip_id_suffix(&snake);
        proof {
            assert(part@ == parts[i as int]);
            assert(parts.take(i + 1).drop_last() =~= parts.take(i as int));
            assert(parts.take(i + 1).last() == parts[i as int]);
            reveal_strlit("_");
            assert("_"@ =~= seq!['_']);
        }
        if i > 0 {
            name.append("_");
        }
        name.append(part.as_str());
        proof {
            if i == 0 {
                assert(parts.take(0).len() == 0);
                assert(name@ =~= parts[0]);
            }
        }
        i += 1;
    }
    proof {
        assert(parts.take(columns.len() as int) =~= parts);
        reveal_strlit("_");
        assert("_"@ =~= seq!['_']);
    }
    name.append("_");
    name.append(module.as_str());
    name
}

} // verus!
