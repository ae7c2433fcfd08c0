//! Finding a track's tempo in the JSON metadata that `ffprobe` prints.

use vstd::prelude::*;
use crate::text::{ascii_lower, chars_are};

verus! {

/// A JSON document as the tempo search reads it. A scalar keeps only what it
/// reads as a tempo (a number, or a string holding a number, rounded to the
/// nearest whole beat per minute); arrays and objects keep their items in
/// order, objects with their keys.
#[derive(Debug)]
pub enum JsonValue {
    Scalar(Option<u32>),
    Array(Vec<JsonValue>),
    Object(Vec<JsonMember>),
}

/// One key and value of a JSON object.
#[derive(Debug)]
pub struct JsonMember {
    pub key: String,
    pub value: JsonValue,
}

/// Whether `key`, in ASCII lower case, is `tempo`, `tbpm`, `bpm` or `beats_per_minute`.
pub open spec fn spec_is_tempo_key(key: Seq<char>) -> bool {
    let l = key.map_values(|c: char| ascii_lower(c));
    ||| l == seq!['t', 'e', 'm', 'p', 'o']
    ||| l == seq!['t', 'b', 'p', 'm']
    ||| l == seq!['b', 'p', 'm']
    ||| l == seq![
        'b',
        'e',
        'a',
        't',
        's',
        '_',
        'p',
        'e',
        'r',
        '_',
        'm',
        'i',
        'n',
        'u',
        't',
        'e',
    ]
}

/// What a value reads as, as a tempo.
pub open spec fn reading(v: JsonValue) -> Option<u32> {
    match v {
        JsonValue::Scalar(r) => r,
        _ => None,
    }
}

/// The first member of `ms` under a tempo key whose value reads as a tempo.
pub open spec fn tempo_under_keys(ms: Seq<JsonMember>) -> Option<u32>
    decreases ms.len(),
{
    if ms.len() == 0 {
        None
    } else if spec_is_tempo_key(ms[0].key@) && reading(ms[0].value) is Some {
        reading(ms[0].value)
    } else {
        tempo_under_keys(ms.drop_first())
    }
}

/// The tempo found in `v`: in an object, first a member under a tempo key
/// that reads as a tempo, then the first tempo found in its values, in
/// order; in an array, the first tempo found in its items; none in a scalar.
pub open spec fn tempo_in(v: JsonValue) -> Option<u32>
    decreases v, 0nat,
{
    match v {
        JsonValue::Scalar(_) => None,
        JsonValue::Array(items) => tempo_in_items(items@),
        JsonValue::Object(members) => match tempo_under_keys(members@) {
            Some(t) => Some(t),
            None => tempo_in_members(members@),
        },
    }
}

/// The first tempo found in `items`, in order.
pub open spec fn tempo_in_items(items: Seq<JsonValue>) -> Option<u32>
    decreases items, 1nat,
{
    if items.len() == 0 {
        None
    } else {
        match tempo_in(items[0]) {
            Some(t) => Some(t),
            None => tempo_in_items(items.drop_first()),
        }
    }
}

/// The first tempo found in the values of `ms`, in order.
pub open spec fn tempo_in_members(ms: Seq<JsonMember>) -> Option<u32>
    decreases ms, 1nat,
{
    if ms.len() == 0 {
        None
    } else {
        match tempo_in(ms[0].value) {
            Some(t) => Some(t),
            None => tempo_in_members(ms.drop_first()),
        }
    }
}


/// The characters of `s` in ASCII lower case.
fn ascii_lowercase(s: &str) -> (r: Vec<char>)
    ensures
        r@ == s@.map_values(|c: char| ascii_lower(c)),
{
    let cs = crate::text::chars_of(s);
    let mut out: Vec<char> = Vec::new();
    let mut i: usize = 0;
    while i < cs.len()
        invariant
            i <= cs.len(),
            cs@ == s@,
            out@ == cs@.take(i as int).map_values(|c: char| ascii_lower(c)),
        decreases cs.len() - i,
    {
        let c = cs[i];
        let l = if 'A' <= c && c <= 'Z' {
            ((c as u32 + 32) as u8) as char
        } else {
            c
        };
        out.push(l);
        assert(cs@.take(i + 1).map_values(|c: char| ascii_lower(c)) =~= cs@.take(
            i as int,
        ).map_values(|c: char| ascii_lower(c)).push(ascii_lower(c)));
        i += 1;
    }
    assert(cs@.take(i as int) =~= cs@);
    out
}

/// Whether `key`, in ASCII lower case, is `tempo`, `tbpm`, `bpm` or
/// `beats_per_minute`.
pub fn is_tempo_key(key: &str) -> (r: bool)
    ensures
        r == spec_is_tempo_key(key@),
{
    let l = ascii_lowercase(key);
    proof {
        reveal_strlit("tempo");
        reveal_strlit("tbpm");
        reveal_strlit("bpm");
        reveal_strlit("beats_per_minute");
        assert("tempo"@ =~= seq!['t', 'e', 'm', 'p', 'o']);
        assert("tbpm"@ =~= seq!['t', 'b', 'p', 'm']);
        assert("bpm"@ =~= seq!['b', 'p', 'm']);
        assert("beats_per_minute"@ =~= seq![
            'b',
            'e',
            'a',
            't',
            's',
            '_',
            'p',
            'e',
            'r',
            '_',
            'm',
            'i',
            'n',
            'u',
            't',
            'e',
        ]);
    }
    chars_are(&l, "tempo") || chars_are(&l, "tbpm") || chars_are(&l, "bpm") || chars_are(
        &l,
        "beats_per_minute",
    )
}

/// Searches `value` for a tempo: in an object, first a member under a tempo
/// key (see `is_tempo_key`) whose value reads as a tempo, then each value in
/// turn; in an array, each item in turn.
pub fn find_tempo(value: &JsonValue) -> (r: Option<u32>)
    ensures
        r == tempo_in(*value),
        r is Some <==> holds_tempo(*value),
    decreases value,
{
    proof {
        lemma_tempo_found(*value);
    }
    match value {
        JsonValue::Scalar(_) => None,
        JsonValue::Array(items) => {
            let mut i: usize = 0;
            assert(items@.skip(0) =~= items@);
            while i < items.len()
                invariant
                    tempo_in(*value) is Some <==> holds_tempo(*value),
                    i <= items.len(),
                    tempo_in(*value) == tempo_in_items(items@.skip(i as int)),
                    *value == JsonValue::Array(*items),
                decreases items.len() - i,
            {
                assert(items@.skip(i as int).drop_first() =~= items@.skip(i + 1));
                assert(items@.skip(i as int)[0] == items@[i as int]);
                assert(decreases_to!(*value => items@[i as int]));
                match find_tempo(&items[i]) {
                    Some(t) => {
                        return Some(t);
                    },
                    None => {},
                }
                i += 1;
            }
            None
        },
        JsonValue::Object(members) => {
            let mut i: usize = 0;
            assert(members@.skip(0) =~= members@);
            while i < members.len()
                invariant
                    tempo_in(*value) is Some <==> holds_tempo(*value),
                    i <= members.len(),
                    tempo_under_keys(members@) == tempo_under_keys(members@.skip(i as int)),
                    *value == JsonValue::Object(*members),
                decreases members.len() - i,
            {
                assert(members@.skip(i as int).drop_first() =~= members@.skip(i + 1));
                assert(members@.skip(i as int)[0] == members@[i as int]);
                let m = &members[i];
                if is_tempo_key(m.key.as_str()) {
                    match &m.value {
                        JsonValue::Scalar(Some(t)) => {
                            return Some(*t);
                        },
                        _ => {},
                    }
                }
                i += 1;
            }
            let mut j: usize = 0;
            while j < members.len()
                invariant
                    tempo_in(*value) is Some <==> holds_tempo(*value),
                    j <= members.len(),
                    tempo_under_keys(members@) is None,
                    tempo_in(*value) == tempo_in_members(members@.skip(j as int)),
                    *value == JsonValue::Object(*members),
                decreases members.len() - j,
            {
                assert(members@.skip(j as int).drop_first() =~= members@.skip(j + 1));
                assert(members@.skip(j as int)[0] == members@[j as int]);
                assert(decreases_to!(*value => members@[j as int].value));
                match find_tempo(&members[j].value) {
                    Some(t) => {
                        return Some(t);
                    },
                    None => {},
                }
                j += 1;
            }
            None
        },
    }
}


/// Whether some member of `ms` is under a tempo key and has a value that
/// reads as a tempo.
pub open spec fn has_tempo_member(ms: Seq<JsonMember>) -> bool {
    exists|i: int|
        0 <= i < ms.len() && spec_is_tempo_key(ms[i].key@) && (#[trigger] reading(ms[i].value))
            is Some
}

/// Whether `v`, at any depth, holds an object with a member under a tempo
/// key whose value reads as a tempo.
pub open spec fn holds_tempo(v: JsonValue) -> bool
    decreases v, 0nat,
{
    match v {
        JsonValue::Scalar(_) => false,
        JsonValue::Array(items) => some_item_holds_tempo(items@),
        JsonValue::Object(members) => has_tempo_member(members@) || some_member_holds_tempo(
            members@,
        ),
    }
}

/// Whether some item of `items` holds a tempo (see `holds_tempo`).
pub open spec fn some_item_holds_tempo(items: Seq<JsonValue>) -> bool
    decreases items, 1nat,
{
    items.len() > 0 && (holds_tempo(items[0]) || some_item_holds_tempo(items.drop_first()))
}

/// Whether the value of some member of `ms` holds a tempo (see `holds_tempo`).
pub open spec fn some_member_holds_tempo(ms: Seq<JsonMember>) -> bool
    decreases ms, 1nat,
{
    ms.len() > 0 && (holds_tempo(ms[0].value) || some_member_holds_tempo(ms.drop_first()))
}

proof fn lemma_tempo_under_keys(ms: Seq<JsonMember>)
    ensures
        tempo_under_keys(ms) is Some <==> has_tempo_member(ms),
    decreases ms.len(),
{
    if ms.len() > 0 {
        let rest = ms.drop_first();
        lemma_tempo_under_keys(rest);
        if has_tempo_member(rest) {
            let i = choose|i: int|
                0 <= i < rest.len() && spec_is_tempo_key(rest[i].key@) && (#[trigger] reading(
                    rest[i].value,
                )) is Some;
            assert(ms[i + 1] == rest[i]);
        }
        if has_tempo_member(ms) {
            let i = choose|i: int|
                0 <= i < ms.len() && spec_is_tempo_key(ms[i].key@) && (#[trigger] reading(
                    ms[i].value,
                )) is Some;
            if i > 0 {
                assert(rest[i - 1] == ms[i]);
            }
        }
    }
}

proof fn lemma_tempo_in_items(items: Seq<JsonValue>)
    ensures
        tempo_in_items(items) is Some <==> some_item_holds_tempo(items),
    decreases items, 1nat,
{
    if items.len() > 0 {
        lemma_tempo_found(items[0]);
        lemma_tempo_in_items(items.drop_first());
    }
}

proof fn lemma_tempo_in_members(ms: Seq<JsonMember>)
    ensures
        tempo_in_members(ms) is Some <==> some_member_holds_tempo(ms),
    decreases ms, 1nat,
{
    if ms.len() > 0 {
        lemma_tempo_found(ms[0].value);
        lemma_tempo_in_members(ms.drop_first());
    }
}

/// `find_tempo` finds a tempo exactly when the document holds, at some
/// depth, an object with a member under a tempo key whose value reads as a
/// tempo.
pub proof fn lemma_tempo_found(v: JsonValue)
    ensures
        tempo_in(v) is Some <==> holds_tempo(v),
    decreases v, 0nat,
{
    match v {
        JsonValue::Scalar(_) => {},
        JsonValue::Array(items) => {
            lemma_tempo_in_items(items@);
        },
        JsonValue::Object(members) => {
            lemma_tempo_under_keys(members@);
            lemma_tempo_in_members(members@);
        },
    }
}


/// No ASCII upper-case letter in `s`.
pub open spec fn no_ascii_upper(s: Seq<char>) -> bool {
    forall|i: int| 0 <= i < s.len() ==> !('A' <= #[trigger] s[i] <= 'Z')
}

/// ASCII lower case changes nothing in a string without upper-case letters,
/// and leaves none behind.
proof fn lemma_ascii_lower_fixes(s: Seq<char>)
    ensures
        no_ascii_upper(s) ==> s.map_values(|c: char| ascii_lower(c)) == s,
        no_ascii_upper(s.map_values(|c: char| ascii_lower(c))),
{
    let l = s.map_values(|c: char| ascii_lower(c));
    if no_ascii_upper(s) {
        assert(l =~= s);
    }
    assert forall|i: int| 0 <= i < l.len() implies !('A' <= #[trigger] l[i] <= 'Z') by {
        let c = s[i];
        if 'A' <= c <= 'Z' {
            assert((c as int) + 32 >= 97);
        }
    }
}

/// Tempo keys are recognised without regard to ASCII case: a key is a
/// tempo key exactly when its ASCII lower case is one.
pub proof fn lemma_tempo_key_ignores_case(key: Seq<char>)
    ensures
        spec_is_tempo_key(key) == spec_is_tempo_key(key.map_values(|c: char| ascii_lower(c))),
{
    let l = key.map_values(|c: char| ascii_lower(c));
    lemma_ascii_lower_fixes(key);
    lemma_ascii_lower_fixes(l);
}

/// A key without ASCII upper-case letters is a tempo key exactly when it is
/// `tempo`, `tbpm`, `bpm` or `beats_per_minute`.
pub proof fn lemma_lower_case_tempo_keys(key: Seq<char>)
    requires
        no_ascii_upper(key),
    ensures
        spec_is_tempo_key(key) <==> (key == "tempo"@ || key == "tbpm"@ || key == "bpm"@ || key
            == "beats_per_minute"@),
{
    lemma_ascii_lower_fixes(key);
    reveal_strlit("tempo");
    reveal_strlit("tbpm");
    reveal_strlit("bpm");
    reveal_strlit("beats_per_minute");
    assert("tempo"@ =~= seq!['t', 'e', 'm', 'p', 'o']);
    assert("tbpm"@ =~= seq!['t', 'b', 'p', 'm']);
    assert("bpm"@ =~= seq!['b', 'p', 'm']);
    assert("beats_per_minute"@ =~= seq![
        'b',
        'e',
        'a',
        't',
        's',
        '_',
        'p',
        'e',
        'r',
        '_',
        'm',
        'i',
        'n',
        'u',
        't',
        'e',
    ]);
}

} // verus!
