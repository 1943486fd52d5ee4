//! What the workflow step preview shows of a step's configuration: credential-
//! shaped fields are masked, however deep they sit, before anything reaches
//! the screen.

use vstd::prelude::*;

use crate::text::{
    ascii_lower, chars_of, chars_starts_with, decimal, is_whitespace, is_ws, push_decimal, str_eq,
    string_from_chars, string_push, to_ascii_lowercase, to_string, concat,
};

verus! {

/// A JSON value, as the preview reads it.
#[derive(Debug, PartialEq)]
pub enum Json {
    /// `null`.
    Null,
    /// `true` or `false`.
    Bool(bool),
    /// A number, by its own text.
    Number(String),
    /// A string.
    Str(String),
    /// An array.
    Array(Vec<Json>),
    /// An object's fields, in order.
    Object(Vec<(String, Json)>),
}

/// The text a masked value shows.
pub open spec fn mask() -> Seq<char> {
    "••••"@
}

/// Whether `needle` occurs in `hay`.
pub open spec fn occurs(hay: Seq<char>, needle: Seq<char>) -> bool {
    exists|i: int| 0 <= i <= hay.len() - needle.len() && #[trigger] hay.subrange(i, i + needle.len()) == needle
}

/// Whether a field named `key` holds a credential: its lower-cased name
/// contains `token`, `secret`, `password`, `api_key` or `authorization`.
pub open spec fn is_secret_key(key: Seq<char>) -> bool {
    let lower = ascii_lower(key);
    ||| occurs(lower, "token"@)
    ||| occurs(lower, "secret"@)
    ||| occurs(lower, "password"@)
    ||| occurs(lower, "api_key"@)
    ||| occurs(lower, "authorization"@)
}

/// `b` is `a` with every credential-shaped field's value masked: the same
/// shape, the same keys in the same order, and the same scalars, except that
/// the value of a field whose name looks like a credential is the mask string,
/// whatever it was.
pub open spec fn redacted(a: Json, b: Json) -> bool
    decreases a,
{
    match a {
        Json::Null => b is Null,
        Json::Bool(x) => b == Json::Bool(x),
        Json::Number(x) => b matches Json::Number(y) && y@ == x@,
        Json::Str(x) => b matches Json::Str(y) && y@ == x@,
        Json::Array(xs) => b matches Json::Array(ys) && ys@.len() == xs@.len() && forall|i: int|
            0 <= i < xs@.len() ==> redacted(#[trigger] xs@[i], ys@[i]),
        Json::Object(fs) => b matches Json::Object(gs) && gs@.len() == fs@.len() && forall|i: int|
            0 <= i < fs@.len() ==> {
                &&& (#[trigger] gs@[i]).0@ == fs@[i].0@
                &&& if is_secret_key(fs@[i].0@) {
                    gs@[i].1 matches Json::Str(m) && m@ == mask()
                } else {
                    redacted(fs@[i].1, gs@[i].1)
                }
            },
    }
}


/// Whether `needle` occurs in `hay`.
fn occurs_in(hay: &[char], needle: &[char]) -> (r: bool)
    ensures
        r == occurs(hay@, needle@),
{
    if needle.len() > hay.len() {
        return false;
    }
    let mut i: usize = 0;
    let last = hay.len() - needle.len();
    loop
        invariant
            needle@.len() <= hay@.len(),
            hay@.len() <= usize::MAX,
            last == hay@.len() - needle@.len(),
            i <= last,
            forall|j: int| 0 <= j < i ==> #[trigger] hay@.subrange(j, j + needle@.len()) != needle@,
        decreases last - i,
    {
        let mut k: usize = 0;
        let mut same = true;
        while k < needle.len()
            invariant
                i <= last,
                last == hay@.len() - needle@.len(),
                hay@.len() <= usize::MAX,
                i + needle@.len() <= hay@.len(),
                k <= needle@.len(),
                same == forall|m: int| 0 <= m < k ==> hay@[i + m] == needle@[m],
            decreases needle@.len() - k,
        {
            if hay[i + k] != needle[k] {
                same = false;
            }
            k += 1;
        }
        if same {
            assert(hay@.subrange(i as int, i + needle@.len()) =~= needle@);
            return true;
        }
        proof {
            let m = choose|m: int| 0 <= m < needle@.len() && hay@[i + m] != needle@[m];
            assert(hay@.subrange(i as int, i + needle@.len())[m] != needle@[m]);
        }
        if i == last {
            proof {
                assert forall|j: int| 0 <= j <= hay@.len() - needle@.len() implies #[trigger] hay@.subrange(
                    j,
                    j + needle@.len(),
                ) != needle@ by {
                    assert(j <= i);
                }
            }
            return false;
        }
        i += 1;
    }
}

/// Whether a field named `key` holds a credential.
pub fn secret_key(key: &str) -> (r: bool)
    ensures
        r == is_secret_key(key@),
{
    let lower = to_ascii_lowercase(key);
    let hay = chars_of(lower.as_str());
    occurs_in(hay.as_slice(), chars_of("token").as_slice()) || occurs_in(
        hay.as_slice(),
        chars_of("secret").as_slice(),
    ) || occurs_in(hay.as_slice(), chars_of("password").as_slice()) || occurs_in(
        hay.as_slice(),
        chars_of("api_key").as_slice(),
    ) || occurs_in(hay.as_slice(), chars_of("authorization").as_slice())
}

/// `value` with every credential-shaped field masked, recursively, so that
/// stored secrets never reach the screen.
pub fn redact(value: &Json) -> (r: Json)
    ensures
        redacted(*value, r),
    decreases value,
{
    match value {
        Json::Null => Json::Null,
        Json::Bool(b) => Json::Bool(*b),
        Json::Number(n) => Json::Number(n.clone()),
        Json::Str(s) => Json::Str(s.clone()),
        Json::Array(items) => {
            let mut out: Vec<Json> = Vec::new();
            let mut i: usize = 0;
            while i < items.len()
                invariant
                    *value == Json::Array(*items),
                    i <= items@.len(),
                    out@.len() == i,
                    forall|j: int| 0 <= j < i ==> redacted(#[trigger] items@[j], out@[j]),
                decreases items@.len() - i,
            {
                proof {
                    assert(decreases_to!(*value => (*value)->Array_0));
                    assert(decreases_to!(*items => items@));
                    assert(decreases_to!(items@ => items@[i as int]));
                }
                let item = redact(&items[i]);
                out.push(item);
                i += 1;
            }
            Json::Array(out)
        },
        Json::Object(fields) => {
            let mut out: Vec<(String, Json)> = Vec::new();
            let mut i: usize = 0;
            while i < fields.len()
                invariant
                    *value == Json::Object(*fields),
                    i <= fields@.len(),
                    out@.len() == i,
                    forall|j: int|
                        0 <= j < i ==> {
                            &&& (#[trigger] out@[j]).0@ == fields@[j].0@
                            &&& if is_secret_key(fields@[j].0@) {
                                out@[j].1 matches Json::Str(m) && m@ == mask()
                            } else {
                                redacted(fields@[j].1, out@[j].1)
                            }
                        },
                decreases fields@.len() - i,
            {
                let key = fields[i].0.clone();
                let field = if secret_key(key.as_str()) {
                    (key, Json::Str(to_string("••••")))
                } else {
                    proof {
                        assert(decreases_to!(*value => (*value)->Object_0));
                        assert(decreases_to!(*fields => fields@));
                        assert(decreases_to!(fields@ => fields@[i as int]));
                        assert(decreases_to!(fields@[i as int] => fields@[i as int].1));
                    }
                    (key, redact(&fields[i].1))
                };
                out.push(field);
                i += 1;
            }
            Json::Object(out)
        },
    }
}


/// Masking an already masked value changes nothing: a redacted value is its
/// own redaction.
pub proof fn lemma_redaction_is_stable(a: Json, b: Json)
    requires
        redacted(a, b),
    ensures
        redacted(b, b),
    decreases a,
{
    match a {
        Json::Array(xs) => {
            let ys = b->Array_0;
            assert forall|i: int| 0 <= i < ys@.len() implies redacted(#[trigger] ys@[i], ys@[i]) by {
                lemma_redaction_is_stable(xs@[i], ys@[i]);
            }
        },
        Json::Object(fs) => {
            let gs = b->Object_0;
            assert forall|i: int| 0 <= i < gs@.len() implies {
                &&& (#[trigger] gs@[i]).0@ == gs@[i].0@
                &&& if is_secret_key(gs@[i].0@) {
                    gs@[i].1 matches Json::Str(m) && m@ == mask()
                } else {
                    redacted(gs@[i].1, gs@[i].1)
                }
            } by {
                if !is_secret_key(fs@[i].0@) {
                    lemma_redaction_is_stable(fs@[i].1, gs@[i].1);
                }
            }
        },
        _ => {},
    }
}

/// Redaction is idempotent: redacting twice gives the value redacting once
/// gave. [`redact`] gives a `b` with `redacted(a, b)`; redacting that `b`
/// gives a `c` with `redacted(b, c)`, and then `c` is a copy of `b`.
pub proof fn lemma_redact_is_idempotent(a: Json, b: Json, c: Json)
    requires
        redacted(a, b),
        redacted(b, c),
    ensures
        same(b, c),
    decreases a,
{
    match a {
        Json::Array(xs) => {
            let ys = b->Array_0;
            let zs = c->Array_0;
            assert forall|i: int| 0 <= i < ys@.len() implies same(#[trigger] ys@[i], zs@[i]) by {
                lemma_redact_is_idempotent(xs@[i], ys@[i], zs@[i]);
            }
        },
        Json::Object(fs) => {
            let gs = b->Object_0;
            let hs = c->Object_0;
            assert forall|i: int| 0 <= i < gs@.len() implies (#[trigger] hs@[i]).0@ == gs@[i].0@ && same(
                gs@[i].1,
                hs@[i].1,
            ) by {
                if !is_secret_key(fs@[i].0@) {
                    lemma_redact_is_idempotent(fs@[i].1, gs@[i].1, hs@[i].1);
                }
            }
        },
        _ => {},
    }
}

/// `b` is a copy of `a`.
pub open spec fn same(a: Json, b: Json) -> bool
    decreases a,
{
    match a {
        Json::Null => b is Null,
        Json::Bool(x) => b == Json::Bool(x),
        Json::Number(x) => b matches Json::Number(y) && y@ == x@,
        Json::Str(x) => b matches Json::Str(y) && y@ == x@,
        Json::Array(xs) => b matches Json::Array(ys) && ys@.len() == xs@.len() && forall|i: int|
            0 <= i < xs@.len() ==> same(#[trigger] xs@[i], ys@[i]),
        Json::Object(fs) => b matches Json::Object(gs) && gs@.len() == fs@.len() && forall|i: int|
            0 <= i < fs@.len() ==> (#[trigger] gs@[i]).0@ == fs@[i].0@ && same(fs@[i].1, gs@[i].1),
    }
}

impl Json {
    /// A copy of this value.
    pub fn copy(&self) -> (r: Json)
        ensures
            same(*self, r),
        decreases self,
    {
        match self {
            Json::Null => Json::Null,
            Json::Bool(b) => Json::Bool(*b),
            Json::Number(n) => Json::Number(n.clone()),
            Json::Str(s) => Json::Str(s.clone()),
            Json::Array(items) => {
                let mut out: Vec<Json> = Vec::new();
                let mut i: usize = 0;
                while i < items.len()
                    invariant
                        *self == Json::Array(*items),
                        i <= items@.len(),
                        out@.len() == i,
                        forall|j: int| 0 <= j < i ==> same(#[trigger] items@[j], out@[j]),
                    decreases items@.len() - i,
                {
                    proof {
                        assert(decreases_to!(*self => (*self)->Array_0));
                        assert(decreases_to!(*items => items@));
                        assert(decreases_to!(items@ => items@[i as int]));
                    }
                    out.push(items[i].copy());
                    i += 1;
                }
                Json::Array(out)
            },
            Json::Object(fields) => {
                let mut out: Vec<(String, Json)> = Vec::new();
                let mut i: usize = 0;
                while i < fields.len()
                    invariant
                        *self == Json::Object(*fields),
                        i <= fields@.len(),
                        out@.len() == i,
                        forall|j: int|
                            0 <= j < i ==> (#[trigger] out@[j]).0@ == fields@[j].0@ && same(
                                fields@[j].1,
                                out@[j].1,
                            ),
                    decreases fields@.len() - i,
                {
                    proof {
                        assert(decreases_to!(*self => (*self)->Object_0));
                        assert(decreases_to!(*fields => fields@));
                        assert(decreases_to!(fields@ => fields@[i as int]));
                        assert(decreases_to!(fields@[i as int] => fields@[i as int].1));
                    }
                    out.push((fields[i].0.clone(), fields[i].1.copy()));
                    i += 1;
                }
                Json::Object(out)
            },
        }
    }
}

/// The value an object holds under `key`: its first field of that name. Not
/// an object, or no such field: nothing.
pub open spec fn spec_get(value: Json, key: Seq<char>) -> Option<Json> {
    match value {
        Json::Object(fs) => if exists|i: int| 0 <= i < fs@.len() && (#[trigger] fs@[i]).0@ == key {
            let i = choose|i: int|
                0 <= i < fs@.len() && (#[trigger] fs@[i]).0@ == key && forall|j: int|
                    0 <= j < i ==> (#[trigger] fs@[j]).0@ != key;
            Some(fs@[i].1)
        } else {
            None
        },
        _ => None,
    }
}

/// The first index of a field named `key`.
fn field_index(fields: &Vec<(String, Json)>, key: &str) -> (r: Option<usize>)
    ensures
        match r {
            Some(i) => i < fields@.len() && fields@[i as int].0@ == key@ && forall|j: int|
                0 <= j < i ==> (#[trigger] fields@[j]).0@ != key@,
            None => forall|j: int| 0 <= j < fields@.len() ==> (#[trigger] fields@[j]).0@ != key@,
        },
{
    let mut i: usize = 0;
    while i < fields.len()
        invariant
            i <= fields@.len(),
            forall|j: int| 0 <= j < i ==> (#[trigger] fields@[j]).0@ != key@,
        decreases fields@.len() - i,
    {
        if str_eq(fields[i].0.as_str(), key) {
            return Some(i);
        }
        i += 1;
    }
    None
}

/// The value `value` holds under `key`, if it is an object that has one.
pub fn get<'a>(value: &'a Json, key: &str) -> (r: Option<&'a Json>)
    ensures
        match r {
            Some(v) => spec_get(*value, key@) == Some(*v),
            None => spec_get(*value, key@) is None,
        },
{
    match value {
        Json::Object(fields) => match field_index(fields, key) {
            Some(i) => {
                assert(fields@[i as int].0@ == key@);
                Some(&fields[i].1)
            },
            None => None,
        },
        _ => None,
    }
}

/// The prose of an agent step's engine item, `item.json.text`, when it is a
/// string.
pub open spec fn item_text(item: Json) -> Option<Seq<char>> {
    match spec_get(item, "json"@) {
        Some(j) => match spec_get(j, "text"@) {
            Some(Json::Str(t)) => Some(t@),
            _ => None,
        },
        None => None,
    }
}

/// The texts an agent step's output items carry, in order.
pub open spec fn replies(items: Seq<Json>) -> Seq<Seq<char>>
    decreases items.len(),
{
    if items.len() == 0 {
        Seq::empty()
    } else {
        let rest = replies(items.drop_last());
        match item_text(items.last()) {
            Some(t) => rest.push(t),
            None => rest,
        }
    }
}

/// The texts of a list of string values.
pub open spec fn str_texts(v: Seq<Json>) -> Option<Seq<Seq<char>>> {
    if forall|i: int| 0 <= i < v.len() ==> (#[trigger] v[i]) is Str {
        Some(v.map_values(|j: Json| j->Str_0@))
    } else {
        None
    }
}

/// What an agent step's output preview shows: the harness prose pulled out of
/// the engine's item envelope when there is some (the one reply itself, or
/// all of them as a list), and the output as it is otherwise.
pub open spec fn agent_output_is(output: Json, r: Json) -> bool {
    let found = match output {
        Json::Array(items) => replies(items@),
        _ => Seq::empty(),
    };
    if found.len() == 0 {
        same(output, r)
    } else if found.len() == 1 {
        r matches Json::Str(t) && t@ == found[0]
    } else {
        r matches Json::Array(ys) && str_texts(ys@) == Some(found)
    }
}

/// Pull the harness prose out of the engine's item envelope when available.
pub fn agent_output(output: &Json) -> (r: Json)
    ensures
        agent_output_is(*output, r),
{
    let mut found: Vec<Json> = Vec::new();
    if let Json::Array(items) = output {
        let mut i: usize = 0;
        while i < items.len()
            invariant
                i <= items@.len(),
                str_texts(found@) == Some(replies(items@.take(i as int))),
            decreases items@.len() - i,
        {
            proof {
                assert(items@.take(i + 1).drop_last() =~= items@.take(i as int));
                assert(items@.take(i + 1).last() == items@[i as int]);
            }
            let text = match get(&items[i], "json") {
                Some(j) => match get(j, "text") {
                    Some(Json::Str(t)) => Some(t.clone()),
                    _ => None,
                },
                None => None,
            };
            proof {
                reveal_strlit("json");
                reveal_strlit("text");
            }
            match text {
                Some(t) => {
                    let ghost before = found@;
                    found.push(Json::Str(t));
                    proof {
                        assert(found@ == before.push(found@[before.len() as int]));
                        assert(found@.map_values(|j: Json| j->Str_0@) =~= before.map_values(
                            |j: Json| j->Str_0@,
                        ).push(found@[before.len() as int]->Str_0@));
                    }
                },
                None => {},
            }
            i += 1;
        }
        assert(items@.take(items@.len() as int) =~= items@);
    }
    if found.len() == 0 {
        output.copy()
    } else if found.len() == 1 {
        found.pop().unwrap()
    } else {
        Json::Array(found)
    }
}

/// An object's fields except those named in `excluded`, in order.
pub open spec fn kept_fields(fields: Seq<(String, Json)>, excluded: Seq<Seq<char>>) -> Seq<(String, Json)> {
    fields.filter(|f: (String, Json)| !excluded.contains(f.0@))
}


/// Whether `excluded` names `key`.
fn is_excluded(excluded: &[&str], key: &str) -> (r: bool)
    ensures
        r == excluded@.map_values(|e: &str| e@).contains(key@),
{
    let ghost names = excluded@.map_values(|e: &str| e@);
    let mut i: usize = 0;
    while i < excluded.len()
        invariant
            i <= excluded@.len(),
            names == excluded@.map_values(|e: &str| e@),
            forall|j: int| 0 <= j < i ==> names[j] != key@,
        decreases excluded@.len() - i,
    {
        if str_eq(excluded[i], key) {
            assert(names[i as int] == key@);
            return true;
        }
        i += 1;
    }
    false
}

/// Copy an object except for the keys in `excluded`, which its headline
/// already shows; anything but an object has no fields to copy.
pub fn without_keys(value: &Json, excluded: &[&str]) -> (r: Vec<(String, Json)>)
    ensures
        ({
            let kept = match *value {
                Json::Object(fs) => kept_fields(fs@, excluded@.map_values(|e: &str| e@)),
                _ => Seq::empty(),
            };
            &&& r@.len() == kept.len()
            &&& forall|i: int|
                0 <= i < kept.len() ==> (#[trigger] r@[i]).0@ == kept[i].0@ && same(kept[i].1, r@[i].1)
        }),
{
    let mut out: Vec<(String, Json)> = Vec::new();
    match value {
        Json::Object(fields) => {
            let ghost names = excluded@.map_values(|e: &str| e@);
            let ghost keep = |f: (String, Json)| !names.contains(f.0@);
            let mut i: usize = 0;
            while i < fields.len()
                invariant
                    i <= fields@.len(),
                    names == excluded@.map_values(|e: &str| e@),
                    keep == (|f: (String, Json)| !names.contains(f.0@)),
                    out@.len() == fields@.take(i as int).filter(keep).len(),
                    forall|k: int|
                        0 <= k < out@.len() ==> (#[trigger] out@[k]).0@ == fields@.take(i as int).filter(
                            keep,
                        )[k].0@ && same(fields@.take(i as int).filter(keep)[k].1, out@[k].1),
                decreases fields@.len() - i,
            {
                proof {
                    assert(fields@.take(i + 1) =~= fields@.take(i as int).push(fields@[i as int]));
                    fields@.take(i as int).lemma_filter_push(fields@[i as int], keep);
                }
                if !is_excluded(excluded, fields[i].0.as_str()) {
                    out.push((fields[i].0.clone(), fields[i].1.copy()));
                }
                i += 1;
            }
            assert(fields@.take(fields@.len() as int) =~= fields@);
        },
        _ => {},
    }
    out
}


/// How many whitespace characters `s` starts with.
pub open spec fn leading_ws(s: Seq<char>) -> nat
    decreases s.len(),
{
    if s.len() > 0 && is_ws(s[0]) {
        1 + leading_ws(s.drop_first())
    } else {
        0
    }
}

/// `s` without its leading whitespace.
pub open spec fn trim_start(s: Seq<char>) -> Seq<char> {
    s.skip(leading_ws(s) as int)
}

/// Whether `s` starts with `p`.
pub open spec fn starts(s: Seq<char>, p: Seq<char>) -> bool {
    p.len() <= s.len() && s.take(p.len() as int) == p
}

/// How a line of step source is coloured.
#[derive(Debug, Clone, Copy, PartialEq, Eq, Structural)]
pub enum SourceStyle {
    /// A comment: dim and italic.
    Comment,
    /// A line opening a definition or an import: highlighted.
    Keyword,
    /// Anything else.
    Plain,
}

/// Whether a Python line opens with one of the words the viewer highlights.
pub open spec fn python_opener(t: Seq<char>) -> bool {
    ||| starts(t, "def "@)
    ||| starts(t, "class "@)
    ||| starts(t, "import "@)
    ||| starts(t, "from "@)
    ||| starts(t, "for "@)
    ||| starts(t, "if "@)
    ||| starts(t, "return "@)
}

/// Whether a JavaScript line opens with one of the words the viewer highlights.
pub open spec fn javascript_opener(t: Seq<char>) -> bool {
    ||| starts(t, "const "@)
    ||| starts(t, "let "@)
    ||| starts(t, "function "@)
    ||| starts(t, "class "@)
    ||| starts(t, "import "@)
    ||| starts(t, "export "@)
}

/// A restrained colouring that needs no parser: comments by their leading
/// `#` or `//`, and, for Python and JavaScript, lines that open with a
/// definition or import keyword.
pub open spec fn spec_source_style(line: Seq<char>, language: Seq<char>) -> SourceStyle {
    let t = trim_start(line);
    if starts(t, "#"@) || starts(t, "//"@) {
        SourceStyle::Comment
    } else if (language == "python"@ && python_opener(t)) || (language == "javascript"@
        && javascript_opener(t)) {
        SourceStyle::Keyword
    } else {
        SourceStyle::Plain
    }
}

/// The line with its leading whitespace removed.
fn trimmed_start(line: &str) -> (r: Vec<char>)
    ensures
        r@ == trim_start(line@),
{
    let v = chars_of(line);
    let mut i: usize = 0;
    assert(v@.skip(0) =~= v@);
    while i < v.len() && is_whitespace(v[i])
        invariant
            i <= v@.len(),
            v@ == line@,
            leading_ws(v@) == i + leading_ws(v@.skip(i as int)),
        decreases v@.len() - i,
    {
        assert(v@.skip(i as int).drop_first() =~= v@.skip(i + 1));
        i += 1;
    }
    assert(v@.skip(i as int).len() == 0 || !is_ws(v@.skip(i as int)[0]));
    let r = crate::text::subvec(v.as_slice(), i, v.len());
    assert(r@ =~= v@.skip(i as int));
    r
}

/// Whether `t` starts with the text `p`.
fn opens_with(t: &[char], p: &str) -> (r: bool)
    ensures
        r == starts(t@, p@),
{
    let pv = chars_of(p);
    chars_starts_with(t, pv.as_slice())
}

/// How a line of step source in `language` is coloured.
pub fn source_style(line: &str, language: &str) -> (r: SourceStyle)
    ensures
        r == spec_source_style(line@, language@),
{
    let t = trimmed_start(line);
    let t = t.as_slice();
    if opens_with(t, "#") || opens_with(t, "//") {
        return SourceStyle::Comment;
    }
    let python = str_eq(language, "python") && (opens_with(t, "def ") || opens_with(t, "class ")
        || opens_with(t, "import ") || opens_with(t, "from ") || opens_with(t, "for ")
        || opens_with(t, "if ") || opens_with(t, "return "));
    let javascript = str_eq(language, "javascript") && (opens_with(t, "const ") || opens_with(
        t,
        "let ",
    ) || opens_with(t, "function ") || opens_with(t, "class ") || opens_with(t, "import ")
        || opens_with(t, "export "));
    if python || javascript {
        SourceStyle::Keyword
    } else {
        SourceStyle::Plain
    }
}


/// `s` cut after each line feed, keeping it: the last piece is what follows
/// the last line feed, if anything does; an empty text has no pieces.
pub open spec fn inclusive_pieces(s: Seq<char>) -> Seq<Seq<char>>
    decreases s.len(),
{
    if s.len() == 0 {
        Seq::empty()
    } else {
        let p = inclusive_pieces(s.drop_last());
        if p.len() == 0 || p.last().last() == '\n' {
            p.push(seq![s.last()])
        } else {
            p.update(p.len() - 1, p.last().push(s.last()))
        }
    }
}

/// A piece without its line ending: a final line feed, and a carriage return
/// just before it.
pub open spec fn strip_ending(piece: Seq<char>) -> Seq<char> {
    if piece.len() > 0 && piece.last() == '\n' {
        let body = piece.drop_last();
        if body.len() > 0 && body.last() == '\r' {
            body.drop_last()
        } else {
            body
        }
    } else {
        piece
    }
}

/// The lines of `s`, split at `\n` or `\r\n`, without their endings; a final
/// line ending ends the last line rather than opening an empty one.
pub open spec fn text_lines(s: Seq<char>) -> Seq<Seq<char>> {
    inclusive_pieces(s).map_values(|p: Seq<char>| strip_ending(p))
}

/// The pieces so far never hold an empty piece, and only the last may lack
/// its line feed.
proof fn lemma_pieces_shape(s: Seq<char>)
    ensures
        forall|k: int| 0 <= k < inclusive_pieces(s).len() ==> (#[trigger] inclusive_pieces(s)[k]).len() > 0,
        forall|k: int|
            0 <= k < inclusive_pieces(s).len() - 1 ==> (#[trigger] inclusive_pieces(s)[k]).last() == '\n',
    decreases s.len(),
{
    if s.len() > 0 {
        lemma_pieces_shape(s.drop_last());
        let p = inclusive_pieces(s.drop_last());
        let q = inclusive_pieces(s);
        if p.len() == 0 || p.last().last() == '\n' {
            assert(q == p.push(seq![s.last()]));
            assert forall|k: int| 0 <= k < q.len() implies (#[trigger] q[k]).len() > 0 by {
                if k < p.len() {
                    assert(q[k] == p[k]);
                }
            }
            assert forall|k: int| 0 <= k < q.len() - 1 implies (#[trigger] q[k]).last() == '\n' by {
                assert(q[k] == p[k]);
            }
        } else {
            assert(q == p.update(p.len() - 1, p.last().push(s.last())));
            assert forall|k: int| 0 <= k < q.len() implies (#[trigger] q[k]).len() > 0 by {
                if k < p.len() - 1 {
                    assert(q[k] == p[k]);
                }
            }
            assert forall|k: int| 0 <= k < q.len() - 1 implies (#[trigger] q[k]).last() == '\n' by {
                assert(q[k] == p[k]);
            }
        }
    }
}

/// The lines of `source`, as `str::lines` splits them.
pub fn source_lines(source: &str) -> (r: Vec<String>)
    ensures
        r@.map_values(|l: String| l@) == text_lines(source@),
{
    let v = chars_of(source);
    let mut out: Vec<String> = Vec::new();
    let mut start: usize = 0;
    let mut i: usize = 0;
    while i < v.len()
        invariant
            v@ == source@,
            start <= i <= v@.len(),
            start == i || v@[i - 1] != '\n',
            start > 0 ==> v@[start - 1] == '\n',
            ({
                let p = inclusive_pieces(v@.take(i as int));
                &&& (start == i ==> p.len() == out@.len())
                &&& (start < i ==> p.len() == out@.len() + 1 && p.last() == v@.subrange(
                    start as int,
                    i as int,
                ))
                &&& forall|k: int|
                    0 <= k < out@.len() ==> (#[trigger] out@[k])@ == strip_ending(p[k])
            }),
        decreases v@.len() - i,
    {
        proof {
            let p = inclusive_pieces(v@.take(i as int));
            assert(v@.take(i + 1).drop_last() =~= v@.take(i as int));
            assert(v@.take(i + 1).last() == v@[i as int]);
            lemma_pieces_shape(v@.take(i as int));
            if start == i && i > 0 {
                assert(v@.take(i as int).last() == v@[i - 1]);
            }
            if start < i {
                assert(v@.subrange(start as int, i as int).push(v@[i as int]) =~= v@.subrange(
                    start as int,
                    i + 1,
                ));
            } else {
                assert(seq![v@[i as int]] =~= v@.subrange(start as int, i + 1));
            }
        }
        if v[i] == '\n' {
            let end = if i > start && v[i - 1] == '\r' {
                i - 1
            } else {
                i
            };
            let line = string_from_chars(v.as_slice(), start, end);
            proof {
                let piece = v@.subrange(start as int, i + 1);
                assert(piece.drop_last() =~= v@.subrange(start as int, i as int));
                if i > start && v@[i - 1] == '\r' {
                    assert(piece.drop_last().drop_last() =~= v@.subrange(start as int, i - 1));
                }
                assert(line@ == strip_ending(piece));
            }
            out.push(line);
            start = i + 1;
        }
        i += 1;
    }
    if start < v.len() {
        let line = string_from_chars(v.as_slice(), start, v.len());
        proof {
            let piece = v@.subrange(start as int, v@.len() as int);
            assert(piece.last() == v@[v@.len() - 1]);
            assert(line@ == strip_ending(piece));
        }
        out.push(line);
    }
    proof {
        assert(v@.take(v@.len() as int) =~= v@);
        assert(out@.map_values(|l: String| l@) =~= text_lines(source@));
    }
    out
}


/// One numbered line of the step source viewer.
#[derive(Debug, Clone, PartialEq, Eq)]
pub struct CodeRow {
    /// The gutter: the line number right-aligned to the widest, and a rule.
    pub gutter: String,
    /// The line itself.
    pub text: String,
    /// How it is coloured.
    pub style: SourceStyle,
}

/// `n` spaces.
pub open spec fn spaces(n: nat) -> Seq<char> {
    Seq::new(n, |i: int| ' ')
}

/// The gutter of line number `number` among `count` lines: the number
/// right-aligned to the width of `count`, then ` │ `.
pub open spec fn gutter(number: nat, count: nat) -> Seq<char> {
    let width = decimal(count).len();
    let digits = decimal(number);
    let pad = if digits.len() < width {
        (width - digits.len()) as nat
    } else {
        0
    };
    spaces(pad) + digits + " │ "@
}

/// The rows the viewer shows for `source` in `language`: each line with its
/// number from one and its colouring.
pub open spec fn code_rows_are(source: Seq<char>, language: Seq<char>, rows: Seq<CodeRow>) -> bool {
    let lines = text_lines(source);
    &&& rows.len() == lines.len()
    &&& forall|i: int|
        0 <= i < lines.len() ==> {
            &&& (#[trigger] rows[i]).gutter@ == gutter((i + 1) as nat, lines.len())
            &&& rows[i].text@ == lines[i]
            &&& rows[i].style == spec_source_style(lines[i], language)
        }
}

/// Number and colour the lines of executable source for the viewer.
pub fn code_rows(source: &str, language: &str) -> (r: Vec<CodeRow>)
    ensures
        code_rows_are(source@, language@, r@),
{
    let lines = source_lines(source);
    let ghost views = lines@.map_values(|l: String| l@);
    let count = lines.len();
    let mut digits = String::new();
    push_decimal(&mut digits, count);
    assert(digits@ =~= decimal(count as nat));
    let width = chars_of(digits.as_str()).len();
    let mut rows: Vec<CodeRow> = Vec::new();
    let mut i: usize = 0;
    while i < count
        invariant
            count == lines@.len(),
            views == lines@.map_values(|l: String| l@),
            views == text_lines(source@),
            width == decimal(count as nat).len(),
            rows@.len() == i,
            i <= count,
            forall|k: int|
                0 <= k < i ==> {
                    &&& (#[trigger] rows@[k]).gutter@ == gutter((k + 1) as nat, count as nat)
                    &&& rows@[k].text@ == views[k]
                    &&& rows@[k].style == spec_source_style(views[k], language@)
                },
        decreases count - i,
    {
        let mut number = String::new();
        push_decimal(&mut number, i + 1);
        assert(number@ =~= decimal((i + 1) as nat));
        let len = chars_of(number.as_str()).len();
        let pad = if len < width {
            width - len
        } else {
            0
        };
        let mut g = String::new();
        let mut k: usize = 0;
        while k < pad
            invariant
                k <= pad,
                g@ == spaces(k as nat),
            decreases pad - k,
        {
            string_push(&mut g, ' ');
            assert(g@ =~= spaces((k + 1) as nat));
            k += 1;
        }
        let g = crate::text::concat(g.as_str(), number.as_str());
        let g = crate::text::concat(g.as_str(), " │ ");
        assert(g@ =~= gutter((i + 1) as nat, count as nat));
        let text = lines[i].clone();
        let style = source_style(lines[i].as_str(), language);
        assert(views[i as int] == lines@[i as int]@);
        rows.push(CodeRow { gutter: g, text, style });
        i += 1;
    }
    rows
}


/// What the step preview shows for a node of a given kind.
#[derive(Debug, PartialEq)]
pub enum KindPreview {
    /// Executable source, shown numbered under a language badge.
    Code {
        /// The source; empty when none is configured.
        source: String,
        /// The language of the badge and of the colouring.
        language: String,
    },
    /// A coding-agent step: the execution metadata it sets, then its prompt.
    Agent {
        /// Each metadata key the step sets to something other than null.
        metadata: Vec<(String, Json)>,
        /// The prompt, instruction or task.
        prompt: Json,
    },
    /// An HTTP request: method and URL, then whatever else it carries.
    Request {
        /// The method, `GET` by default.
        method: String,
        /// The URL, or `no URL`.
        url: String,
        /// The other fields.
        rest: Vec<(String, Json)>,
    },
    /// A tool call other than the shell: its slug and arguments.
    Tool {
        /// The tool's slug, or `unknown tool`.
        slug: String,
        /// The arguments.
        args: Json,
    },
    /// A value under a label.
    Labelled {
        /// The label.
        label: String,
        /// The value.
        value: Json,
    },
}

/// The text of a string value.
pub open spec fn str_of(v: Option<Json>) -> Option<Seq<char>> {
    match v {
        Some(Json::Str(s)) => Some(s@),
        _ => None,
    }
}

/// The first of two lookups that found something.
pub open spec fn either(a: Option<Json>, b: Option<Json>) -> Option<Json> {
    if a is Some {
        a
    } else {
        b
    }
}

/// A lookup's value, or null.
pub open spec fn or_null(v: Option<Json>) -> Json {
    match v {
        Some(j) => j,
        None => Json::Null,
    }
}

/// A lookup's text, or `default`.
pub open spec fn text_or(v: Option<Json>, default: Seq<char>) -> Seq<char> {
    match str_of(v) {
        Some(t) => t,
        None => default,
    }
}

/// Whether `config` sets `key` to something other than null.
pub open spec fn sets(config: Json, key: Seq<char>) -> bool {
    spec_get(config, key) matches Some(v) && !(v is Null)
}

/// `key`, when `config` sets it.
pub open spec fn key_if_set(config: Json, key: Seq<char>) -> Seq<Seq<char>> {
    if sets(config, key) {
        seq![key]
    } else {
        Seq::empty()
    }
}

/// The metadata keys `config` sets to something other than null, in display
/// order: harness, model, provider, whether approval is required.
pub open spec fn present_keys(config: Json) -> Seq<Seq<char>> {
    key_if_set(config, "harness"@) + key_if_set(config, "model"@) + key_if_set(config, "provider"@)
        + key_if_set(config, "requires_approval"@)
}

/// Whether `r` is `want` under `label`.
pub open spec fn labelled_is(r: KindPreview, label: Seq<char>, want: Json) -> bool {
    r matches KindPreview::Labelled { label: l, value } && l@ == label && same(want, value)
}

/// The code viewer for a code node: its `source` (else `code`) text and its
/// language, JavaScript by default.
pub open spec fn code_preview(config: Json, r: KindPreview) -> bool {
    r matches KindPreview::Code { source, language } && source@ == text_or(
        either(spec_get(config, "source"@), spec_get(config, "code"@)),
        Seq::empty(),
    ) && language@ == text_or(spec_get(config, "language"@), "javascript"@)
}

/// An agent node's execution metadata, then its prompt, instruction or task.
pub open spec fn agent_preview(config: Json, r: KindPreview) -> bool {
    r matches KindPreview::Agent { metadata, prompt } && {
        let keys = present_keys(config);
        &&& metadata@.len() == keys.len()
        &&& forall|i: int|
            0 <= i < keys.len() ==> (#[trigger] metadata@[i]).0@ == keys[i] && same(
                spec_get(config, keys[i])->0,
                metadata@[i].1,
            )
        &&& same(
            or_null(
                either(
                    either(spec_get(config, "prompt"@), spec_get(config, "instruction"@)),
                    spec_get(config, "task"@),
                ),
            ),
            prompt,
        )
    }
}

/// A lookup finds the first field of the key.
proof fn lemma_get_first(config: Json, key: Seq<char>, i: int)
    requires
        config is Object,
        0 <= i < config->Object_0@.len(),
        config->Object_0@[i].0@ == key,
        forall|j: int| 0 <= j < i ==> (#[trigger] config->Object_0@[j]).0@ != key,
    ensures
        spec_get(config, key) == Some(config->Object_0@[i].1),
{
    let fs = config->Object_0;
    assert(exists|k: int| 0 <= k < fs@.len() && (#[trigger] fs@[k]).0@ == key);
    let c = choose|k: int|
        0 <= k < fs@.len() && (#[trigger] fs@[k]).0@ == key && forall|j: int|
            0 <= j < k ==> (#[trigger] fs@[j]).0@ != key;
    assert(0 <= i < fs@.len() && fs@[i].0@ == key && forall|j: int|
        0 <= j < i ==> (#[trigger] fs@[j]).0@ != key);
    assert(c == i) by {
        if c < i {
            assert(fs@[c].0@ != key);
        }
        if c > i {
            assert(fs@[i].0@ != key);
        }
    }
}

/// An agent step shows its own prompt: when the step's configuration has a
/// `prompt` field, the preview's prompt is a copy of (the first) one,
/// whatever `instruction` or `task` it also sets; without a `prompt`, its
/// `instruction` is shown in its place.
pub proof fn lemma_agent_shows_its_prompt(config: Json, r: KindPreview, i: int)
    requires
        preview_is("agent"@, config, r),
        config is Object,
        0 <= i < config->Object_0@.len(),
        config->Object_0@[i].0@ == "prompt"@ || (config->Object_0@[i].0@ == "instruction"@ && forall|
            j: int,
        | 0 <= j < config->Object_0@.len() ==> (#[trigger] config->Object_0@[j]).0@ != "prompt"@),
        forall|j: int| 0 <= j < i ==> (#[trigger] config->Object_0@[j]).0@ != config->Object_0@[i].0@,
    ensures
        r matches KindPreview::Agent { prompt, .. } && same(config->Object_0@[i].1, prompt),
{
    reveal_strlit("agent");
    reveal_strlit("code");
    assert("agent"@[0] != "code"@[0]);
    let key = config->Object_0@[i].0@;
    lemma_get_first(config, key, i);
    if key != "prompt"@ {
        assert(spec_get(config, "prompt"@) is None);
    }
}

/// A request node's method and URL, then its other fields.
pub open spec fn request_preview(config: Json, r: KindPreview) -> bool {
    r matches KindPreview::Request { method, url, rest } && method@ == text_or(
        spec_get(config, "method"@),
        "GET"@,
    ) && url@ == text_or(spec_get(config, "url"@), "no URL"@) && {
        let kept = match config {
            Json::Object(fs) => kept_fields(fs@, seq!["method"@, "url"@]),
            _ => Seq::empty(),
        };
        &&& rest@.len() == kept.len()
        &&& forall|i: int|
            0 <= i < kept.len() ==> (#[trigger] rest@[i]).0@ == kept[i].0@ && same(
                kept[i].1,
                rest@[i].1,
            )
    }
}

/// Whether a tool call runs the shell.
pub open spec fn is_shell_call(config: Json) -> bool {
    str_of(spec_get(config, "slug"@)) == Some("medulla:shell"@)
}

/// The code viewer for a shell tool call: its script, shell by default.
pub open spec fn shell_preview(config: Json, r: KindPreview) -> bool {
    let args = or_null(spec_get(config, "args"@));
    r matches KindPreview::Code { source, language } && source@ == text_or(
        spec_get(args, "script"@),
        Seq::empty(),
    ) && language@ == text_or(spec_get(args, "language"@), "shell"@)
}

/// Another tool call's slug and arguments.
pub open spec fn tool_preview(config: Json, r: KindPreview) -> bool {
    r matches KindPreview::Tool { slug, args } && slug@ == text_or(
        spec_get(config, "slug"@),
        "unknown tool"@,
    ) && same(or_null(spec_get(config, "args"@)), args)
}

/// What the preview of a `kind` node configured with `config` is: the code
/// viewer for code and for shell tool calls, execution metadata and prompt
/// for agents, method and URL for requests, slug and arguments for other
/// tools, and a labelled value for everything else.
pub open spec fn preview_is(kind: Seq<char>, config: Json, r: KindPreview) -> bool {
    if kind == "code"@ {
        code_preview(config, r)
    } else if kind == "agent"@ {
        agent_preview(config, r)
    } else if kind == "condition"@ {
        labelled_is(
            r,
            "condition"@,
            or_null(either(spec_get(config, "expression"@), spec_get(config, "condition"@))),
        )
    } else if kind == "http_request"@ {
        request_preview(config, r)
    } else if kind == "tool_call"@ && is_shell_call(config) {
        shell_preview(config, r)
    } else if kind == "tool_call"@ {
        tool_preview(config, r)
    } else if kind == "transform"@ || kind == "set"@ || kind == "merge"@ {
        labelled_is(r, "mapping"@, config)
    } else if kind == "trigger"@ {
        labelled_is(r, "trigger"@, or_null(spec_get(config, "trigger_kind"@)))
    } else {
        labelled_is(r, "config"@, config)
    }
}

/// A borrowed lookup as a value.
pub open spec fn found(v: Option<&Json>) -> Option<Json> {
    match v {
        Some(j) => Some(*j),
        None => None,
    }
}

/// A lookup's text, or `default`.
fn text_or_default(v: Option<&Json>, default: &str) -> (r: String)
    ensures
        r@ == text_or(found(v), default@),
{
    match v {
        Some(Json::Str(s)) => s.clone(),
        _ => to_string(default),
    }
}

/// A copy of a lookup's value, or null.
fn copy_or_null(v: Option<&Json>) -> (r: Json)
    ensures
        same(or_null(found(v)), r),
{
    match v {
        Some(j) => j.copy(),
        None => Json::Null,
    }
}

/// The first of two lookups that found something.
fn first_found<'a>(a: Option<&'a Json>, b: Option<&'a Json>) -> (r: Option<&'a Json>)
    ensures
        found(r) == either(found(a), found(b)),
{
    if a.is_some() {
        a
    } else {
        b
    }
}

/// A lookup as the spec reads it.
fn lookup<'a>(value: &'a Json, key: &str) -> (r: Option<&'a Json>)
    ensures
        found(r) == spec_get(*value, key@),
{
    get(value, key)
}

/// Whether `out` holds, in order, the keys `keys` each with a copy of what
/// `config` sets it to.
pub open spec fn holds_settings(out: Seq<(String, Json)>, config: Json, keys: Seq<Seq<char>>) -> bool {
    &&& out.len() == keys.len()
    &&& forall|i: int|
        0 <= i < keys.len() ==> (#[trigger] out[i]).0@ == keys[i] && same(
            spec_get(config, keys[i])->0,
            out[i].1,
        )
}

/// Append `key` and a copy of its value when `config` sets it to something
/// other than null.
fn push_present(out: &mut Vec<(String, Json)>, config: &Json, key: &str, Ghost(keys): Ghost<Seq<Seq<char>>>)
    requires
        holds_settings(old(out)@, *config, keys),
    ensures
        holds_settings(final(out)@, *config, keys + key_if_set(*config, key@)),
{
    match lookup(config, key) {
        Some(v) => {
            if !(v matches Json::Null) {
                let ghost before = out@;
                out.push((to_string(key), v.copy()));
                assert(keys + key_if_set(*config, key@) =~= keys.push(key@));
                assert forall|i: int| 0 <= i < keys.len() + 1 implies (#[trigger] out@[i]).0@ == (keys
                    + key_if_set(*config, key@))[i] && same(
                    spec_get(*config, (keys + key_if_set(*config, key@))[i])->0,
                    out@[i].1,
                ) by {
                    if i < keys.len() {
                        assert(out@[i] == before[i]);
                    }
                }
            } else {
                assert(keys + key_if_set(*config, key@) =~= keys);
            }
        },
        None => {
            assert(keys + key_if_set(*config, key@) =~= keys);
        },
    }
}

/// The code viewer for a code node.
fn code_node(config: &Json) -> (r: KindPreview)
    ensures
        code_preview(*config, r),
{
    let source = text_or_default(first_found(lookup(config, "source"), lookup(config, "code")), "");
    let language = text_or_default(lookup(config, "language"), "javascript");
    proof {
        reveal_strlit("");
        assert(""@ =~= Seq::<char>::empty());
    }
    KindPreview::Code { source, language }
}

/// The preview of an agent node.
fn agent_node(config: &Json) -> (r: KindPreview)
    ensures
        agent_preview(*config, r),
{
    let mut metadata: Vec<(String, Json)> = Vec::new();
    let ghost k0 = Seq::<Seq<char>>::empty();
    let ghost k1 = k0 + key_if_set(*config, "harness"@);
    let ghost k2 = k1 + key_if_set(*config, "model"@);
    let ghost k3 = k2 + key_if_set(*config, "provider"@);
    push_present(&mut metadata, config, "harness", Ghost(k0));
    push_present(&mut metadata, config, "model", Ghost(k1));
    push_present(&mut metadata, config, "provider", Ghost(k2));
    push_present(&mut metadata, config, "requires_approval", Ghost(k3));
    assert(k3 + key_if_set(*config, "requires_approval"@) =~= present_keys(*config));
    let prompt = copy_or_null(
        first_found(
            first_found(lookup(config, "prompt"), lookup(config, "instruction")),
            lookup(config, "task"),
        ),
    );
    KindPreview::Agent { metadata, prompt }
}

/// The preview of a request node.
fn request_node(config: &Json) -> (r: KindPreview)
    ensures
        request_preview(*config, r),
{
    let method = text_or_default(lookup(config, "method"), "GET");
    let url = text_or_default(lookup(config, "url"), "no URL");
    let rest = without_keys(config, &["method", "url"]);
    proof {
        let names = seq!["method", "url"].map_values(|e: &str| e@);
        assert(names =~= seq!["method"@, "url"@]);
    }
    KindPreview::Request { method, url, rest }
}

/// The preview of a tool call node.
fn tool_node(config: &Json) -> (r: KindPreview)
    ensures
        is_shell_call(*config) ==> shell_preview(*config, r),
        !is_shell_call(*config) ==> tool_preview(*config, r),
{
    let slug = lookup(config, "slug");
    let shell = match slug {
        Some(Json::Str(s)) => str_eq(s.as_str(), "medulla:shell"),
        _ => false,
    };
    if shell {
        let args = lookup(config, "args");
        let (source, language) = match args {
            Some(a) => (
                text_or_default(lookup(a, "script"), ""),
                text_or_default(lookup(a, "language"), "shell"),
            ),
            None => (to_string(""), to_string("shell")),
        };
        proof {
            reveal_strlit("");
            assert(""@ =~= Seq::<char>::empty());
        }
        return KindPreview::Code { source, language };
    }
    let slug = text_or_default(slug, "unknown tool");
    let args = copy_or_null(lookup(config, "args"));
    KindPreview::Tool { slug, args }
}

/// What the step preview shows for a `kind` node configured with `config`.
pub fn kind_preview(kind: &str, config: &Json) -> (r: KindPreview)
    ensures
        preview_is(kind@, *config, r),
{
    if str_eq(kind, "code") {
        code_node(config)
    } else if str_eq(kind, "agent") {
        agent_node(config)
    } else if str_eq(kind, "condition") {
        let value = copy_or_null(first_found(lookup(config, "expression"), lookup(config, "condition")));
        KindPreview::Labelled { label: to_string("condition"), value }
    } else if str_eq(kind, "http_request") {
        request_node(config)
    } else if str_eq(kind, "tool_call") {
        tool_node(config)
    } else if str_eq(kind, "transform") || str_eq(kind, "set") || str_eq(kind, "merge") {
        KindPreview::Labelled { label: to_string("mapping"), value: config.copy() }
    } else if str_eq(kind, "trigger") {
        let value = copy_or_null(lookup(config, "trigger_kind"));
        KindPreview::Labelled { label: to_string("trigger"), value }
    } else {
        KindPreview::Labelled { label: to_string("config"), value: config.copy() }
    }
}


/// An edge of the placed workflow graph.
#[derive(Debug, Clone, PartialEq, Eq)]
pub struct Edge {
    /// The node it leaves.
    pub from: String,
    /// The node it enters.
    pub to: String,
    /// The output port it leaves by, if it is named.
    pub label: Option<String>,
}

/// `parts` separated by `, `.
pub open spec fn joined(parts: Seq<Seq<char>>) -> Seq<char>
    decreases parts.len(),
{
    if parts.len() == 0 {
        Seq::empty()
    } else if parts.len() == 1 {
        parts[0]
    } else {
        joined(parts.drop_last()) + ", "@ + parts.last()
    }
}

/// The nodes that flow into `id`, in edge order.
pub open spec fn incoming(id: Seq<char>, edges: Seq<Edge>) -> Seq<Seq<char>>
    decreases edges.len(),
{
    if edges.len() == 0 {
        Seq::empty()
    } else {
        let rest = incoming(id, edges.drop_last());
        if edges.last().to@ == id {
            rest.push(edges.last().from@)
        } else {
            rest
        }
    }
}

/// Where `id` flows to, each named by its port when the edge has one.
pub open spec fn outgoing(id: Seq<char>, edges: Seq<Edge>) -> Seq<Seq<char>>
    decreases edges.len(),
{
    if edges.len() == 0 {
        Seq::empty()
    } else {
        let rest = outgoing(id, edges.drop_last());
        let e = edges.last();
        if e.from@ == id {
            rest.push(
                match e.label {
                    Some(port) => port@ + " → "@ + e.to@,
                    None => e.to@,
                },
            )
        } else {
            rest
        }
    }
}

/// The joined names, or `none` when there are none.
pub open spec fn joined_or(parts: Seq<Seq<char>>, none: Seq<char>) -> Seq<char> {
    if parts.len() == 0 {
        none
    } else {
        joined(parts)
    }
}

/// Append `part` to a list being joined with `, `.
fn join_push(out: &mut String, count: usize, part: &str, Ghost(parts): Ghost<Seq<Seq<char>>>)
    requires
        parts.len() == count,
        old(out)@ == joined(parts),
    ensures
        final(out)@ == joined(parts.push(part@)),
{
    let ghost next = parts.push(part@);
    assert(next.drop_last() =~= parts);
    if count > 0 {
        let joined_so_far = concat(out.as_str(), ", ");
        *out = concat(joined_so_far.as_str(), part);
    } else {
        *out = to_string(part);
    }
}

/// What the preview's flow line says of node `id`: where it is entered from
/// (`entry` when nothing leads in) and where it leads (`output` when nothing
/// leaves it).
pub fn flow_texts(id: &str, edges: &[Edge]) -> (r: (String, String))
    ensures
        r.0@ == joined_or(incoming(id@, edges@), "entry"@),
        r.1@ == joined_or(outgoing(id@, edges@), "output"@),
{
    let mut ins = String::new();
    let mut n_in: usize = 0;
    let mut outs = String::new();
    let mut n_out: usize = 0;
    let mut i: usize = 0;
    while i < edges.len()
        invariant
            i <= edges@.len(),
            n_in == incoming(id@, edges@.take(i as int)).len(),
            n_out == outgoing(id@, edges@.take(i as int)).len(),
            n_in <= i && n_out <= i,
            ins@ == joined(incoming(id@, edges@.take(i as int))),
            outs@ == joined(outgoing(id@, edges@.take(i as int))),
        decreases edges@.len() - i,
    {
        assert(edges@.take(i + 1).drop_last() =~= edges@.take(i as int));
        assert(edges@.take(i + 1).last() == edges@[i as int]);
        let e = &edges[i];
        if str_eq(e.to.as_str(), id) {
            join_push(&mut ins, n_in, e.from.as_str(), Ghost(incoming(id@, edges@.take(i as int))));
            n_in += 1;
        }
        if str_eq(e.from.as_str(), id) {
            let target = match &e.label {
                Some(port) => {
                    let t = concat(port.as_str(), " → ");
                    concat(t.as_str(), e.to.as_str())
                },
                None => e.to.clone(),
            };
            join_push(&mut outs, n_out, target.as_str(), Ghost(outgoing(id@, edges@.take(i as int))));
            n_out += 1;
        }
        i += 1;
    }
    assert(edges@.take(edges@.len() as int) =~= edges@);
    let ins = if n_in == 0 {
        to_string("entry")
    } else {
        ins
    };
    let outs = if n_out == 0 {
        to_string("output")
    } else {
        outs
    };
    (ins, outs)
}


/// The routing defaults that explain an authored agent node.
#[derive(Debug, Clone, PartialEq, Eq)]
pub struct AgentDefaults {
    /// The worker used when a node names none.
    pub worker: String,
    /// The harness hint sent to the worker.
    pub harness: String,
    /// The model hint sent to the worker.
    pub model: String,
}

/// The effective defaults, for people: the configured worker; the default
/// provider's display name, else `worker default`; the default model, else
/// `worker default`.
pub fn agent_defaults(worker: &str, provider_name: Option<&str>, model: &str) -> (r: AgentDefaults)
    ensures
        r.worker@ == worker@,
        r.harness@ == match provider_name {
            Some(p) => p@,
            None => "worker default"@,
        },
        r.model@ == if model@.len() == 0 {
            "worker default"@
        } else {
            model@
        },
{
    AgentDefaults {
        worker: to_string(worker),
        harness: match provider_name {
            Some(p) => to_string(p),
            None => to_string("worker default"),
        },
        model: if model.is_empty() {
            to_string("worker default")
        } else {
            to_string(model)
        },
    }
}

/// How many terminal rows lines of display widths `widths` take in a pane
/// `width` columns wide: each at least one, wrapped by whole widths.
pub open spec fn visual_rows(widths: Seq<usize>, width: int) -> int
    decreases widths.len(),
{
    if widths.len() == 0 {
        0
    } else {
        let w = if widths.last() == 0 {
            1
        } else {
            widths.last() as int
        };
        visual_rows(widths.drop_last(), width) + (w + width - 1) / width
    }
}

/// The preview's scroll offset, kept from running past its last page: at
/// most the rows its lines take beyond the `visible` ones.
pub fn clamp_preview_scroll(widths: &[usize], width: u16, visible: usize, scroll: usize) -> (r: usize)
    requires
        visual_rows(widths@, if width == 0 { 1 } else { width as int }) <= usize::MAX,
    ensures
        ({
            let total = visual_rows(widths@, if width == 0 { 1 } else { width as int });
            let room = if total > visible { total - visible } else { 0 };
            r == if scroll < room { scroll as int } else { room }
        }),
{
    let w: usize = if width == 0 {
        1
    } else {
        width as usize
    };
    let ghost wi = w as int;
    let mut total: usize = 0;
    let mut i: usize = 0;
    while i < widths.len()
        invariant
            i <= widths@.len(),
            wi == w,
            wi >= 1,
            wi == (if width == 0 { 1 } else { width as int }),
            visual_rows(widths@, wi) <= usize::MAX,
            total == visual_rows(widths@.take(i as int), wi),
        decreases widths@.len() - i,
    {
        proof {
            assert(widths@.take(i + 1).drop_last() =~= widths@.take(i as int));
            assert(widths@.take(i + 1).last() == widths@[i as int]);
            lemma_visual_rows_grow(widths@, wi, i + 1);
        }
        let line = if widths[i] == 0 {
            1
        } else {
            widths[i]
        };
        let q = line / w;
        let rem = line % w;
        proof {
            let li = line as int;
            assert((li + wi - 1) / wi == li / wi + if li % wi == 0 { 0int } else { 1int }
                && li / wi + if li % wi == 0 { 0int } else { 1int } <= li) by (nonlinear_arith)
                requires
                    wi >= 1,
                    li >= 1,
            {
            }
        }
        let rows = q + if rem == 0 {
            0
        } else {
            1
        };
        total = total + rows;
        i += 1;
    }
    assert(widths@.take(widths@.len() as int) =~= widths@);
    let room = if total > visible {
        total - visible
    } else {
        0
    };
    if scroll < room {
        scroll
    } else {
        room
    }
}

/// More lines never take fewer rows.
proof fn lemma_visual_rows_grow(widths: Seq<usize>, width: int, n: int)
    requires
        width >= 1,
        0 <= n <= widths.len(),
    ensures
        0 <= visual_rows(widths.take(n), width) <= visual_rows(widths, width),
    decreases widths.len() - n,
{
    if n < widths.len() {
        lemma_visual_rows_grow(widths, width, n + 1);
        assert(widths.take(n + 1).drop_last() =~= widths.take(n));
        assert(widths.take(n + 1).last() == widths[n]);
        let w = if widths[n] == 0 { 1 } else { widths[n] as int };
        assert((w + width - 1) / width >= 0) by (nonlinear_arith)
            requires
                w >= 1,
                width >= 1,
        {
        }
    } else {
        assert(widths.take(n) =~= widths);
    }
    lemma_visual_rows_nonneg(widths.take(n), width);
}

/// Row counts are never negative.
proof fn lemma_visual_rows_nonneg(widths: Seq<usize>, width: int)
    requires
        width >= 1,
    ensures
        visual_rows(widths, width) >= 0,
    decreases widths.len(),
{
    if widths.len() > 0 {
        lemma_visual_rows_nonneg(widths.drop_last(), width);
        let w = if widths.last() == 0 { 1 } else { widths.last() as int };
        assert((w + width - 1) / width >= 0) by (nonlinear_arith)
            requires
                w >= 1,
                width >= 1,
        {
        }
    }
}


/// What a labelled value shows: its own text, or a structure to print.
pub enum ValueText {
    /// Text shown as it is.
    Plain(String),
    /// A masked structure, shown pretty-printed.
    Structured(Json),
}

/// What labelled `value` shows: a string as itself, `null` as "not
/// configured", and anything else masked and printed as a structure.
pub fn value_text(value: &Json) -> (r: ValueText)
    ensures
        match *value {
            Json::Str(s) => r matches ValueText::Plain(t) && t@ == s@,
            Json::Null => r matches ValueText::Plain(t) && t@ == "not configured"@,
            _ => r matches ValueText::Structured(j) && redacted(*value, j),
        },
{
    match value {
        Json::Str(s) => ValueText::Plain(to_string(s.as_str())),
        Json::Null => ValueText::Plain(to_string("not configured")),
        _ => ValueText::Structured(redact(value)),
    }
}

/// The rows of a labelled value: the label, then each line of `text`
/// indented by two spaces.
pub fn labelled_rows(label: &str, text: &str) -> (r: Vec<String>)
    ensures
        r@.len() == 1 + text_lines(text@).len(),
        r@[0]@ == label@ + "  "@,
        forall|i: int| 0 <= i < text_lines(text@).len() ==> #[trigger] r@[i + 1]@ == "  "@ + text_lines(text@)[i],
{
    let lines = source_lines(text);
    let ghost views = lines@.map_values(|l: String| l@);
    let mut out: Vec<String> = Vec::new();
    out.push(concat(label, "  "));
    let mut i: usize = 0;
    while i < lines.len()
        invariant
            i <= lines@.len(),
            views == lines@.map_values(|l: String| l@),
            views == text_lines(text@),
            out@.len() == 1 + i,
            out@[0]@ == label@ + "  "@,
            forall|j: int| 0 <= j < i ==> #[trigger] out@[j + 1]@ == "  "@ + views[j],
        decreases lines@.len() - i,
    {
        out.push(concat("  ", lines[i].as_str()));
        assert(out@[i + 1]@ == "  "@ + views[i as int]);
        i += 1;
    }
    out
}

/// The badge above executable source: the language, padded by a space.
pub fn language_badge(language: &str) -> (r: String)
    ensures
        r@ == " "@ + language@ + " "@,
{
    let a = concat(" ", language);
    concat(a.as_str(), " ")
}

/// What executable source shows in place of its lines when there are none.
pub fn missing_source_notice(source: &str) -> (r: Option<&'static str>)
    ensures
        r is Some <==> source@.len() == 0,
        r is Some ==> r->0@ == "No source configured."@,
{
    if chars_of(source).len() == 0 {
        Some("No source configured.")
    } else {
        None
    }
}


/// A metadata field as shown: its key, a colon, and its value's text.
pub open spec fn field_text(f: (String, String)) -> Seq<char> {
    f.0@ + ": "@ + f.1@
}

/// The metadata line of `fields` (each a key and its value's text): every
/// field, separated by a dot; no line when there are none.
pub open spec fn spec_metadata_text(fields: Seq<(String, String)>) -> Option<Seq<char>> {
    if fields.len() == 0 {
        None
    } else {
        Some(crate::task_sources::joined(fields.map_values(|f: (String, String)| field_text(f)), "  ·  "@))
    }
}

/// The text a scalar value shows as itself: a string's own text; any other
/// value is printed as JSON.
pub fn scalar_text(value: &Json) -> (r: Option<String>)
    ensures
        match *value {
            Json::Str(t) => r matches Some(x) && x@ == t@,
            _ => r is None,
        },
{
    match value {
        Json::Str(t) => Some(to_string(t.as_str())),
        _ => None,
    }
}

/// The compact metadata line a step's fields show.
pub fn metadata_text(fields: &Vec<(String, String)>) -> (r: Option<String>)
    ensures
        match r {
            Some(t) => spec_metadata_text(fields@) == Some(t@),
            None => spec_metadata_text(fields@) is None,
        },
{
    if fields.len() == 0 {
        return None;
    }
    let ghost texts = fields@.map_values(|f: (String, String)| field_text(f));
    let mut out = String::new();
    let mut i: usize = 0;
    while i < fields.len()
        invariant
            i <= fields@.len(),
            texts == fields@.map_values(|f: (String, String)| field_text(f)),
            out@ == crate::task_sources::joined(texts.take(i as int), "  ·  "@),
        decreases fields@.len() - i,
    {
        let ghost before = texts.take(i as int);
        if i > 0 {
            out = concat(out.as_str(), "  ·  ");
        }
        let ghost mid = out@;
        out = concat(out.as_str(), fields[i].0.as_str());
        out = concat(out.as_str(), ": ");
        out = concat(out.as_str(), fields[i].1.as_str());
        proof {
            let after = texts.take(i + 1);
            assert(after.drop_last() =~= before);
            assert(after.last() == field_text(fields@[i as int]));
            assert(out@ =~= mid + field_text(fields@[i as int]));
            if i == 0 {
                assert(after.len() == 1);
                assert(mid =~= Seq::<char>::empty());
            }
        }
        i += 1;
    }
    assert(texts.take(fields@.len() as int) =~= texts);
    Some(out)
}
} // verus!
