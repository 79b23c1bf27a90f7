//! The textual representation stored in the persistent slot, and the
//! functions that convert an item collection to and from it.
//!
//! The format is a bracketed array of three-element arrays, one per item,
//! in insertion order: `[["title",bool,"id"],...]`. Titles and ids are
//! quoted, with `\` and `"` escaped by a backslash; the flag is the bare
//! word `true` or `false`. [`encode`] produces exactly this form and
//! [`decode`] accepts exactly this form, so a decoded value reproduces the
//! encoded collection (see [`lemma_round_trip`]).

use crate::item::{Item, ItemList, ItemModel};
use vstd::prelude::*;
use vstd::string::StrSliceExecFns;
use vstd::string::StringExecFns;

verus! {

/// `s` with every `\` and `"` preceded by a backslash.
pub open spec fn escape_seq(s: Seq<char>) -> Seq<char>
    decreases s.len(),
{
    if s.len() == 0 {
        Seq::empty()
    } else {
        let head = if s[0] == '"' || s[0] == '\\' {
            seq!['\\', s[0]]
        } else {
            seq![s[0]]
        };
        head + escape_seq(s.skip(1))
    }
}

/// A quoted, escaped string field.
pub open spec fn serialize_string(s: Seq<char>) -> Seq<char> {
    seq!['"'] + escape_seq(s) + seq!['"']
}

/// The bare word `true` or `false`.
pub open spec fn serialize_bool(b: bool) -> Seq<char> {
    if b {
        seq!['t', 'r', 'u', 'e']
    } else {
        seq!['f', 'a', 'l', 's', 'e']
    }
}

/// One item as a three-element array: title, flag, id.
pub open spec fn serialize_item(m: ItemModel) -> Seq<char> {
    seq!['['] + serialize_string(m.title) + seq![','] + serialize_bool(m.completed) + seq![',']
        + serialize_string(m.id) + seq![']']
}

/// The items after the first, each preceded by a comma, then the closing
/// bracket of the outer array.
pub open spec fn serialize_items_tail(items: Seq<ItemModel>) -> Seq<char>
    decreases items.len(),
{
    if items.len() == 0 {
        seq![']']
    } else {
        seq![','] + serialize_item(items[0]) + serialize_items_tail(items.skip(1))
    }
}

/// The whole collection as an array of item arrays.
pub open spec fn serialize_items(items: Seq<ItemModel>) -> Seq<char> {
    if items.len() == 0 {
        seq!['[', ']']
    } else {
        seq!['['] + serialize_item(items[0]) + serialize_items_tail(items.skip(1))
    }
}

/// Parses the body of a quoted string, after its opening quote: the
/// unescaped content and the remainder after the closing quote.
pub open spec fn parse_string_body(s: Seq<char>) -> Option<(Seq<char>, Seq<char>)>
    decreases s.len(),
{
    if s.len() == 0 {
        None
    } else if s[0] == '"' {
        Some((Seq::empty(), s.skip(1)))
    } else if s[0] == '\\' {
        if s.len() >= 2 && (s[1] == '"' || s[1] == '\\') {
            match parse_string_body(s.skip(2)) {
                Some(p) => Some((seq![s[1]] + p.0, p.1)),
                None => None,
            }
        } else {
            None
        }
    } else {
        match parse_string_body(s.skip(1)) {
            Some(p) => Some((seq![s[0]] + p.0, p.1)),
            None => None,
        }
    }
}

/// Parses a quoted string field: its content and the remainder.
pub open spec fn parse_string(s: Seq<char>) -> Option<(Seq<char>, Seq<char>)> {
    if s.len() >= 1 && s[0] == '"' {
        parse_string_body(s.skip(1))
    } else {
        None
    }
}

/// Parses the bare word `true` or `false`: its value and the remainder.
pub open spec fn parse_bool(s: Seq<char>) -> Option<(bool, Seq<char>)> {
    if s.len() >= 4 && s[0] == 't' && s[1] == 'r' && s[2] == 'u' && s[3] == 'e' {
        Some((true, s.skip(4)))
    } else if s.len() >= 5 && s[0] == 'f' && s[1] == 'a' && s[2] == 'l' && s[3] == 's' && s[4]
        == 'e' {
        Some((false, s.skip(5)))
    } else {
        None
    }
}

/// Parses one three-element item array: the item and the remainder.
pub open spec fn parse_item(s: Seq<char>) -> Option<(ItemModel, Seq<char>)> {
    if s.len() >= 1 && s[0] == '[' {
        match parse_string(s.skip(1)) {
            Some(title_p) => if title_p.1.len() >= 1 && title_p.1[0] == ',' {
                match parse_bool(title_p.1.skip(1)) {
                    Some(flag_p) => if flag_p.1.len() >= 1 && flag_p.1[0] == ',' {
                        match parse_string(flag_p.1.skip(1)) {
                            Some(id_p) => if id_p.1.len() >= 1 && id_p.1[0] == ']' {
                                Some(
                                    (
                                        ItemModel {
                                            id: id_p.0,
                                            title: title_p.0,
                                            completed: flag_p.0,
                                        },
                                        id_p.1.skip(1),
                                    ),
                                )
                            } else {
                                None
                            },
                            None => None,
                        }
                    } else {
                        None
                    },
                    None => None,
                }
            } else {
                None
            },
            None => None,
        }
    } else {
        None
    }
}

/// Parses the items after the first, each preceded by a comma, up to and
/// including the closing bracket of the outer array.
pub open spec fn parse_items_tail(s: Seq<char>) -> Option<(Seq<ItemModel>, Seq<char>)>
    decreases s.len(),
{
    if s.len() == 0 {
        None
    } else if s[0] == ']' {
        Some((Seq::empty(), s.skip(1)))
    } else if s[0] == ',' {
        match parse_item(s.skip(1)) {
            Some(p) => if p.1.len() < s.len() {
                match parse_items_tail(p.1) {
                    Some(q) => Some((seq![p.0] + q.0, q.1)),
                    None => None,
                }
            } else {
                None
            },
            None => None,
        }
    } else {
        None
    }
}

/// Parses a whole stored value: the item collection, provided the input is
/// exactly one well-formed array of item arrays.
pub open spec fn parse_items(s: Seq<char>) -> Option<Seq<ItemModel>> {
    if s.len() == 2 && s[0] == '[' && s[1] == ']' {
        Some(Seq::empty())
    } else if s.len() >= 1 && s[0] == '[' {
        match parse_item(s.skip(1)) {
            Some(p) => match parse_items_tail(p.1) {
                Some(q) => if q.1.len() == 0 {
                    Some(seq![p.0] + q.0)
                } else {
                    None
                },
                None => None,
            },
            None => None,
        }
    } else {
        None
    }
}

/// The stored value is not a well-formed array of three-element item
/// arrays: the outer brackets are missing or unbalanced, an element is not
/// a bracketed triple of string, flag and string, or trailing text follows.
#[derive(Debug, PartialEq, Eq, Structural, Clone, Copy)]
pub struct DecodeError;

/// Relies on `String::push`: appends the given character to the end of the
/// string.
#[verifier::external_body]
fn push_char(out: &mut String, c: char)
    ensures
        final(out)@ == old(out)@ + seq![c],
{
    out.push(c);
}

/// Appends `escape_seq(s@.skip(i))` to `out`.
fn push_escaped_from(out: &mut String, s: &str, i: usize, n: usize)
    requires
        i <= n,
        n == s@.len(),
    ensures
        final(out)@ == old(out)@ + escape_seq(s@.skip(i as int)),
    decreases n - i,
{
    if i == n {
        assert(s@.skip(i as int) =~= Seq::<char>::empty());
        assert(out@ =~= out@ + escape_seq(s@.skip(i as int)));
    } else {
        let c = s.get_char(i);
        if c == '"' || c == '\\' {
            push_char(out, '\\');
            push_char(out, c);
        } else {
            push_char(out, c);
        }
        push_escaped_from(out, s, i + 1, n);
        proof {
            let tail = s@.skip(i as int);
            assert(tail[0] == c);
            assert(tail.skip(1) =~= s@.skip(i as int + 1));
            assert(out@ =~= old(out)@ + escape_seq(s@.skip(i as int)));
        }
    }
}

/// Appends `serialize_string(s@)` to `out`.
fn push_string(out: &mut String, s: &str)
    ensures
        final(out)@ == old(out)@ + serialize_string(s@),
{
    push_char(out, '"');
    let n = s.unicode_len();
    push_escaped_from(out, s, 0, n);
    push_char(out, '"');
    proof {
        assert(s@.skip(0) =~= s@);
        assert(out@ =~= old(out)@ + serialize_string(s@));
    }
}

/// Appends `serialize_bool(b)` to `out`.
fn push_bool(out: &mut String, b: bool)
    ensures
        final(out)@ == old(out)@ + serialize_bool(b),
{
    if b {
        push_char(out, 't');
        push_char(out, 'r');
        push_char(out, 'u');
        push_char(out, 'e');
    } else {
        push_char(out, 'f');
        push_char(out, 'a');
        push_char(out, 'l');
        push_char(out, 's');
        push_char(out, 'e');
    }
    assert(out@ =~= old(out)@ + serialize_bool(b));
}

/// Appends `serialize_item(item@)` to `out`.
fn push_item(out: &mut String, item: &Item)
    ensures
        final(out)@ == old(out)@ + serialize_item(item@),
{
    push_char(out, '[');
    push_string(out, item.title.as_str());
    push_char(out, ',');
    push_bool(out, item.completed);
    push_char(out, ',');
    push_string(out, item.id.as_str());
    push_char(out, ']');
    assert(out@ =~= old(out)@ + serialize_item(item@));
}

/// Appends `serialize_items_tail` of the items from position `i` on.
fn push_items_tail(out: &mut String, items: &Vec<Item>, i: usize)
    requires
        i <= items.len(),
    ensures
        final(out)@ == old(out)@ + serialize_items_tail(items.deep_view().skip(i as int)),
    decreases items.len() - i,
{
    if i == items.len() {
        push_char(out, ']');
        assert(items.deep_view().skip(i as int) =~= Seq::<ItemModel>::empty());
        assert(out@ =~= old(out)@ + serialize_items_tail(items.deep_view().skip(i as int)));
    } else {
        push_char(out, ',');
        push_item(out, &items[i]);
        push_items_tail(out, items, i + 1);
        proof {
            let tail = items.deep_view().skip(i as int);
            assert(tail[0] == items.deep_view()[i as int]);
            assert(tail.skip(1) =~= items.deep_view().skip(i as int + 1));
            assert(out@ =~= old(out)@ + serialize_items_tail(items.deep_view().skip(i as int)));
        }
    }
}

/// Encodes the collection into the stored textual representation.
pub fn encode(items: &ItemList) -> (s: String)
    ensures
        s@ == serialize_items(items.deep_view()),
{
    let mut out = String::new();
    push_char(&mut out, '[');
    if items.len() == 0 {
        push_char(&mut out, ']');
        assert(out@ =~= serialize_items(items.deep_view()));
    } else {
        push_item(&mut out, &items[0]);
        push_items_tail(&mut out, items, 1);
        proof {
            assert(items.deep_view()[0] == items[0]@);
            assert(items.deep_view().skip(1) =~= items.deep_view().skip(1));
            assert(out@ =~= serialize_items(items.deep_view()));
        }
    }
    out
}

/// The characters of the string, in order.
fn str_chars(s: &str) -> (v: Vec<char>)
    ensures
        v@ == s@,
{
    let n = s.unicode_len();
    let mut v: Vec<char> = Vec::new();
    let mut i: usize = 0;
    while i < n
        invariant
            i <= n,
            n == s@.len(),
            v@ == s@.take(i as int),
        decreases n - i,
    {
        let c = s.get_char(i);
        v.push(c);
        proof {
            assert(v@ =~= s@.take(i as int + 1));
        }
        i = i + 1;
    }
    proof {
        assert(v@ =~= s@);
    }
    v
}

/// Runs `parse_string_body` at position `i` of `v`.
fn parse_string_body_at(v: &Vec<char>, i: usize) -> (r: Option<(String, usize)>)
    requires
        i <= v.len(),
    ensures
        match r {
            Some(p) => i < p.1 <= v.len() && parse_string_body(v@.skip(i as int)) == Some(
                (p.0@, v@.skip(p.1 as int)),
            ),
            None => parse_string_body(v@.skip(i as int)) is None,
        },
    decreases v.len() - i,
{
    let ghost s0 = v@.skip(i as int);
    if i == v.len() {
        None
    } else {
        let c = v[i];
        assert(s0[0] == c);
        if c == '"' {
            proof {
                assert(s0.skip(1) =~= v@.skip(i as int + 1));
            }
            Some((String::new(), i + 1))
        } else if c == '\\' {
            if i + 1 < v.len() && (v[i + 1] == '"' || v[i + 1] == '\\') {
                let e = v[i + 1];
                proof {
                    assert(s0[1] == e);
                    assert(s0.skip(2) =~= v@.skip(i as int + 2));
                }
                match parse_string_body_at(v, i + 2) {
                    Some(p) => {
                        let (content, j) = p;
                        let mut owned = String::new();
                        push_char(&mut owned, e);
                        owned.append(content.as_str());
                        proof {
                            assert(owned@ =~= seq![e] + content@);
                        }
                        Some((owned, j))
                    },
                    None => None,
                }
            } else {
                proof {
                    if s0.len() >= 2 {
                        assert(s0[1] == v@[i as int + 1]);
                    }
                }
                None
            }
        } else {
            proof {
                assert(s0.skip(1) =~= v@.skip(i as int + 1));
            }
            match parse_string_body_at(v, i + 1) {
                Some(p) => {
                    let (content, j) = p;
                    let mut owned = String::new();
                    push_char(&mut owned, c);
                    owned.append(content.as_str());
                    proof {
                        assert(owned@ =~= seq![c] + content@);
                    }
                    Some((owned, j))
                },
                None => None,
            }
        }
    }
}

/// Runs `parse_string` at position `i` of `v`.
fn parse_string_at(v: &Vec<char>, i: usize) -> (r: Option<(String, usize)>)
    requires
        i <= v.len(),
    ensures
        match r {
            Some(p) => i < p.1 <= v.len() && parse_string(v@.skip(i as int)) == Some(
                (p.0@, v@.skip(p.1 as int)),
            ),
            None => parse_string(v@.skip(i as int)) is None,
        },
{
    if i < v.len() {
        let c = v[i];
        assert(v@.skip(i as int)[0] == c);
        if c == '"' {
            proof {
                assert(v@.skip(i as int).skip(1) =~= v@.skip(i as int + 1));
            }
            parse_string_body_at(v, i + 1)
        } else {
            None
        }
    } else {
        None
    }
}

/// Runs `parse_bool` at position `i` of `v`.
fn parse_bool_at(v: &Vec<char>, i: usize) -> (r: Option<(bool, usize)>)
    requires
        i <= v.len(),
    ensures
        match r {
            Some(p) => i < p.1 <= v.len() && parse_bool(v@.skip(i as int)) == Some(
                (p.0, v@.skip(p.1 as int)),
            ),
            None => parse_bool(v@.skip(i as int)) is None,
        },
{
    let ghost s0 = v@.skip(i as int);
    proof {
        assert(forall|k: int| 0 <= k < s0.len() ==> s0[k] == v@[i + k]);
    }
    if v.len() - i >= 4 && v[i] == 't' && v[i + 1] == 'r' && v[i + 2] == 'u' && v[i + 3] == 'e' {
        proof {
            assert(s0.skip(4) =~= v@.skip(i as int + 4));
        }
        Some((true, i + 4))
    } else if v.len() - i >= 5 && v[i] == 'f' && v[i + 1] == 'a' && v[i + 2] == 'l' && v[i + 3]
        == 's' && v[i + 4] == 'e' {
        proof {
            assert(s0.skip(5) =~= v@.skip(i as int + 5));
        }
        Some((false, i + 5))
    } else {
        None
    }
}

/// Runs `parse_item` at position `i` of `v`.
fn parse_item_at(v: &Vec<char>, i: usize) -> (r: Option<(Item, usize)>)
    requires
        i <= v.len(),
    ensures
        match r {
            Some(p) => i < p.1 <= v.len() && parse_item(v@.skip(i as int)) == Some(
                (p.0@, v@.skip(p.1 as int)),
            ),
            None => parse_item(v@.skip(i as int)) is None,
        },
{
    let ghost s0 = v@.skip(i as int);
    if i == v.len() {
        return None;
    }
    let c0 = v[i];
    assert(s0[0] == c0);
    if c0 != '[' {
        return None;
    }
    proof {
        assert(s0.skip(1) =~= v@.skip(i as int + 1));
    }
    match parse_string_at(v, i + 1) {
        None => None,
        Some(p) => {
            let (title, j1) = p;
            let ghost r1 = v@.skip(j1 as int);
            if j1 == v.len() {
                return None;
            }
            let c1 = v[j1];
            assert(r1[0] == c1);
            if c1 != ',' {
                return None;
            }
            proof {
                assert(r1.skip(1) =~= v@.skip(j1 as int + 1));
            }
            match parse_bool_at(v, j1 + 1) {
                None => None,
                Some(q) => {
                    let (flag, j2) = q;
                    let ghost r2 = v@.skip(j2 as int);
                    if j2 == v.len() {
                        return None;
                    }
                    let c2 = v[j2];
                    assert(r2[0] == c2);
                    if c2 != ',' {
                        return None;
                    }
                    proof {
                        assert(r2.skip(1) =~= v@.skip(j2 as int + 1));
                    }
                    match parse_string_at(v, j2 + 1) {
                        None => None,
                        Some(w) => {
                            let (id, j3) = w;
                            let ghost r3 = v@.skip(j3 as int);
                            if j3 == v.len() {
                                return None;
                            }
                            let c3 = v[j3];
                            assert(r3[0] == c3);
                            if c3 != ']' {
                                return None;
                            }
                            proof {
                                assert(r3.skip(1) =~= v@.skip(j3 as int + 1));
                            }
                            Some((Item { id, title, completed: flag }, j3 + 1))
                        },
                    }
                },
            }
        },
    }
}

/// Runs `parse_items_tail` at position `i` of `v`.
fn parse_items_tail_at(v: &Vec<char>, i: usize) -> (r: Option<(Vec<Item>, usize)>)
    requires
        i <= v.len(),
    ensures
        match r {
            Some(p) => i < p.1 <= v.len() && parse_items_tail(v@.skip(i as int)) == Some(
                (p.0.deep_view(), v@.skip(p.1 as int)),
            ),
            None => parse_items_tail(v@.skip(i as int)) is None,
        },
    decreases v.len() - i,
{
    let ghost s0 = v@.skip(i as int);
    if i == v.len() {
        return None;
    }
    let c = v[i];
    assert(s0[0] == c);
    if c == ']' {
        proof {
            assert(s0.skip(1) =~= v@.skip(i as int + 1));
        }
        let empty: Vec<Item> = Vec::new();
        proof {
            assert(empty.deep_view() =~= Seq::<ItemModel>::empty());
        }
        Some((empty, i + 1))
    } else if c == ',' {
        proof {
            assert(s0.skip(1) =~= v@.skip(i as int + 1));
        }
        match parse_item_at(v, i + 1) {
            None => None,
            Some(p) => {
                let (item, j) = p;
                proof {
                    assert(v@.skip(j as int).len() < s0.len());
                }
                match parse_items_tail_at(v, j) {
                    None => None,
                    Some(q) => {
                        let (mut rest, j2) = q;
                        let ghost rest0 = rest.deep_view();
                        rest.insert(0, item);
                        proof {
                            assert(rest.deep_view() =~= seq![item@] + rest0);
                        }
                        Some((rest, j2))
                    },
                }
            },
        }
    } else {
        None
    }
}

/// Decodes a stored textual representation back into the item collection.
/// Succeeds exactly on the well-formed representations, with the items in
/// stored order; any malformed value is rejected with a [`DecodeError`].
pub fn decode(s: &str) -> (r: Result<ItemList, DecodeError>)
    ensures
        match r {
            Ok(items) => parse_items(s@) == Some(items.deep_view()),
            Err(_) => parse_items(s@) is None,
        },
{
    let v = str_chars(s);
    if v.len() == 2 && v[0] == '[' && v[1] == ']' {
        let empty: Vec<Item> = Vec::new();
        proof {
            assert(empty.deep_view() =~= Seq::<ItemModel>::empty());
        }
        Ok(empty)
    } else if v.len() >= 1 && v[0] == '[' {
        match parse_item_at(&v, 1) {
            None => Err(DecodeError),
            Some(p) => {
                let (first, j) = p;
                match parse_items_tail_at(&v, j) {
                    None => Err(DecodeError),
                    Some(q) => {
                        let (mut rest, j2) = q;
                        if j2 == v.len() {
                            let ghost rest0 = rest.deep_view();
                            rest.insert(0, first);
                            proof {
                                assert(v@.skip(j2 as int).len() == 0);
                                assert(rest.deep_view() =~= seq![first@] + rest0);
                            }
                            Ok(rest)
                        } else {
                            Err(DecodeError)
                        }
                    },
                }
            },
        }
    } else {
        Err(DecodeError)
    }
}

proof fn lemma_parse_escaped(v: Seq<char>, rest: Seq<char>)
    ensures
        parse_string_body(escape_seq(v) + seq!['"'] + rest) == Some((v, rest)),
    decreases v.len(),
{
    let s = escape_seq(v) + seq!['"'] + rest;
    if v.len() == 0 {
        assert(escape_seq(v) =~= Seq::<char>::empty());
        assert(s[0] == '"');
        assert(s.skip(1) =~= rest);
    } else {
        let c = v[0];
        let v1 = v.skip(1);
        lemma_parse_escaped(v1, rest);
        let s2 = escape_seq(v1) + seq!['"'] + rest;
        if c == '"' || c == '\\' {
            assert(s =~= seq!['\\', c] + s2);
            assert(s[0] == '\\');
            assert(s[1] == c);
            assert(s.skip(2) =~= s2);
            assert(seq![s[1]] + v1 =~= v);
        } else {
            assert(s =~= seq![c] + s2);
            assert(s[0] == c);
            assert(s.skip(1) =~= s2);
            assert(seq![s[0]] + v1 =~= v);
        }
    }
}

proof fn lemma_parse_serialize_string(v: Seq<char>, rest: Seq<char>)
    ensures
        parse_string(serialize_string(v) + rest) == Some((v, rest)),
{
    let s = serialize_string(v) + rest;
    assert(s[0] == '"');
    assert(s.skip(1) =~= escape_seq(v) + seq!['"'] + rest);
    lemma_parse_escaped(v, rest);
}

proof fn lemma_parse_serialize_bool(b: bool, rest: Seq<char>)
    ensures
        parse_bool(serialize_bool(b) + rest) == Some((b, rest)),
{
    let s = serialize_bool(b) + rest;
    if b {
        assert(s[0] == 't' && s[1] == 'r' && s[2] == 'u' && s[3] == 'e');
        assert(s.skip(4) =~= rest);
    } else {
        assert(s[0] == 'f' && s[1] == 'a' && s[2] == 'l' && s[3] == 's' && s[4] == 'e');
        assert(s.skip(5) =~= rest);
    }
}

proof fn lemma_parse_serialize_item(m: ItemModel, rest: Seq<char>)
    ensures
        parse_item(serialize_item(m) + rest) == Some((m, rest)),
{
    let s = serialize_item(m) + rest;
    let r1 = seq![','] + serialize_bool(m.completed) + seq![','] + serialize_string(m.id) + seq![
        ']',
    ] + rest;
    let r2 = serialize_bool(m.completed) + (seq![','] + serialize_string(m.id) + seq![']'] + rest);
    let r3 = seq![','] + serialize_string(m.id) + seq![']'] + rest;
    let r4 = serialize_string(m.id) + (seq![']'] + rest);
    let r5 = seq![']'] + rest;
    assert(s[0] == '[');
    assert(s.skip(1) =~= serialize_string(m.title) + r1);
    lemma_parse_serialize_string(m.title, r1);
    assert(r1[0] == ',');
    assert(r1.skip(1) =~= r2);
    lemma_parse_serialize_bool(m.completed, seq![','] + serialize_string(m.id) + seq![']'] + rest);
    assert(r2 =~= serialize_bool(m.completed) + (seq![','] + serialize_string(m.id) + seq![']']
        + rest));
    assert(r3[0] == ',');
    assert(r3.skip(1) =~= r4);
    lemma_parse_serialize_string(m.id, seq![']'] + rest);
    assert(r4 =~= serialize_string(m.id) + (seq![']'] + rest));
    assert(r5[0] == ']');
    assert(r5.skip(1) =~= rest);
    assert(ItemModel { id: m.id, title: m.title, completed: m.completed } == m);
}

#[verifier::rlimit(60)]
proof fn lemma_parse_serialize_items_tail(items: Seq<ItemModel>, rest: Seq<char>)
    ensures
        parse_items_tail(serialize_items_tail(items) + rest) == Some((items, rest)),
    decreases items.len(),
{
    let s = serialize_items_tail(items) + rest;
    if items.len() == 0 {
        assert(s =~= seq![']'] + rest);
        assert(s[0] == ']');
        assert(s.skip(1) =~= rest);
        assert(items =~= Seq::<ItemModel>::empty());
    } else {
        let m = items[0];
        let tail = items.skip(1);
        let r1 = serialize_items_tail(tail) + rest;
        assert(s =~= seq![','] + (serialize_item(m) + r1));
        assert(s[0] == ',');
        assert(s.skip(1) =~= serialize_item(m) + r1);
        lemma_parse_serialize_item(m, r1);
        assert(s.len() == 1 + serialize_item(m).len() + r1.len());
        assert(r1.len() < s.len());
        lemma_parse_serialize_items_tail(tail, rest);
        assert(seq![m] + tail =~= items);
    }
}

/// Round trip: a well-formed encoded collection decodes to the same items,
/// in the same order, with the same field values.
pub proof fn lemma_round_trip(items: Seq<ItemModel>)
    ensures
        parse_items(serialize_items(items)) == Some(items),
{
    let s = serialize_items(items);
    if items.len() == 0 {
        assert(s =~= seq!['[', ']']);
        assert(s.len() == 2 && s[0] == '[' && s[1] == ']');
        assert(items =~= Seq::<ItemModel>::empty());
    } else {
        let m = items[0];
        let tail_items = items.skip(1);
        let tail = serialize_items_tail(tail_items);
        assert(serialize_string(m.title).len() >= 2);
        assert(serialize_item(m).len() >= 4);
        assert(s.len() == 1 + serialize_item(m).len() + tail.len());
        assert(s.len() > 2);
        assert(s[0] == '[');
        assert(s.skip(1) =~= serialize_item(m) + tail);
        lemma_parse_serialize_item(m, tail);
        lemma_parse_serialize_items_tail(tail_items, Seq::empty());
        assert(tail + Seq::<char>::empty() =~= tail);
        assert(Seq::<char>::empty().len() == 0);
        assert(seq![m] + tail_items =~= items);
    }
}

} // verus!
