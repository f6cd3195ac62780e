//! A structured value tree standing for the open-ended solution payload,
//! with a canonical textual rendering: object keys sorted, fixed numeric
//! formatting, deterministic string escaping. Two payloads holding the same
//! key-value pairs render identically whatever order they were built in.

use vstd::prelude::*;
use crate::text::{dec_chars, digit_char, push_char, u64_to_decimal};

verus! {

broadcast use vstd::std_specs::vec::group_vec_axioms;

/// One JSON-like value. Objects are kept as key-sorted member lists so that
/// the rendering, and hence every hash derived from it, is canonical.
pub enum JsonValue {
    Null,
    Bool(bool),
    Int(i64),
    UInt(u64),
    Text(String),
    List(Vec<JsonValue>),
    Object(Vec<(String, JsonValue)>),
}

/// Strict lexicographic order on character sequences (by code point).
pub open spec fn chars_lt(a: Seq<char>, b: Seq<char>) -> bool
    decreases a.len(),
{
    if b.len() == 0 {
        false
    } else if a.len() == 0 {
        true
    } else if a[0] != b[0] {
        (a[0] as int) < (b[0] as int)
    } else {
        chars_lt(a.drop_first(), b.drop_first())
    }
}

/// The canonical escaping of one character inside a JSON string literal.
pub open spec fn escape_char(c: char) -> Seq<char> {
    if c == '"' {
        seq!['\\', '"']
    } else if c == '\\' {
        seq!['\\', '\\']
    } else if c == '\n' {
        seq!['\\', 'n']
    } else if c == '\r' {
        seq!['\\', 'r']
    } else if c == '\t' {
        seq!['\\', 't']
    } else if (c as nat) < 32 {
        seq!['\\', 'u', '0', '0', hex_char((c as nat) / 16), hex_char((c as nat) % 16)]
    } else {
        seq![c]
    }
}

/// The lower-case hexadecimal digit for a value below sixteen.
pub open spec fn hex_char(d: nat) -> char {
    if d < 10 {
        digit_char(d)
    } else if d == 10 {
        'a'
    } else if d == 11 {
        'b'
    } else if d == 12 {
        'c'
    } else if d == 13 {
        'd'
    } else if d == 14 {
        'e'
    } else {
        'f'
    }
}

/// The canonical escaping of a whole character sequence.
pub open spec fn escape_chars(s: Seq<char>) -> Seq<char>
    decreases s.len(),
{
    if s.len() == 0 {
        Seq::empty()
    } else {
        escape_char(s[0]) + escape_chars(s.drop_first())
    }
}

/// A quoted, escaped JSON string literal.
pub open spec fn quoted(s: Seq<char>) -> Seq<char> {
    seq!['"'] + escape_chars(s) + seq!['"']
}

/// The decimal form of a signed value.
pub open spec fn int_chars(n: int) -> Seq<char> {
    if n < 0 {
        seq!['-'] + dec_chars((-n) as nat)
    } else {
        dec_chars(n as nat)
    }
}

/// The canonical rendering of a value.
pub open spec fn json_of(v: JsonValue) -> Seq<char>
    decreases v,
{
    match v {
        JsonValue::Null => seq!['n', 'u', 'l', 'l'],
        JsonValue::Bool(b) => if b {
            seq!['t', 'r', 'u', 'e']
        } else {
            seq!['f', 'a', 'l', 's', 'e']
        },
        JsonValue::Int(i) => int_chars(i as int),
        JsonValue::UInt(u) => dec_chars(u as nat),
        JsonValue::Text(s) => quoted(s@),
        JsonValue::List(items) => seq!['['] + json_of_items(items@) + seq![']'],
        JsonValue::Object(members) => seq!['{'] + json_of_members(members@) + seq!['}'],
    }
}

/// The comma-separated renderings of a list's items.
pub open spec fn json_of_items(items: Seq<JsonValue>) -> Seq<char>
    decreases items,
{
    if items.len() == 0 {
        Seq::empty()
    } else if items.len() == 1 {
        json_of(items[0])
    } else {
        json_of(items[0]) + seq![','] + json_of_items(items.drop_first())
    }
}

/// The comma-separated renderings of an object's members.
pub open spec fn json_of_members(members: Seq<(String, JsonValue)>) -> Seq<char>
    decreases members,
{
    if members.len() == 0 {
        Seq::empty()
    } else if members.len() == 1 {
        quoted(members[0].0@) + seq![':'] + json_of(members[0].1)
    } else {
        quoted(members[0].0@) + seq![':'] + json_of(members[0].1) + seq![',']
            + json_of_members(members.drop_first())
    }
}

fn hex_to_char(d: u64) -> (c: char)
    requires
        d < 16,
    ensures
        c == hex_char(d as nat),
{
    if d == 10 {
        'a'
    } else if d == 11 {
        'b'
    } else if d == 12 {
        'c'
    } else if d == 13 {
        'd'
    } else if d == 14 {
        'e'
    } else if d == 15 {
        'f'
    } else {
        crate::text::digit_to_char(d)
    }
}

fn push_escaped_char(s: &mut String, c: char)
    ensures
        final(s)@ == old(s)@ + escape_char(c),
{
    if c == '"' {
        proof {
            reveal_strlit("\\\"");
        }
        s.append("\\\"");
        assert(s@ =~= old(s)@ + escape_char(c));
    } else if c == '\\' {
        proof {
            reveal_strlit("\\\\");
        }
        s.append("\\\\");
        assert(s@ =~= old(s)@ + escape_char(c));
    } else if c == '\n' {
        proof {
            reveal_strlit("\\n");
        }
        s.append("\\n");
        assert(s@ =~= old(s)@ + escape_char(c));
    } else if c == '\r' {
        proof {
            reveal_strlit("\\r");
        }
        s.append("\\r");
        assert(s@ =~= old(s)@ + escape_char(c));
    } else if c == '\t' {
        proof {
            reveal_strlit("\\t");
        }
        s.append("\\t");
        assert(s@ =~= old(s)@ + escape_char(c));
    } else if (c as u32) < 32 {
        proof {
            reveal_strlit("\\u00");
        }
        s.append("\\u00");
        let code: u32 = c as u32;
        push_char(s, hex_to_char((code / 16) as u64));
        push_char(s, hex_to_char((code % 16) as u64));
        assert(s@ =~= old(s)@ + escape_char(c));
    } else {
        push_char(s, c);
        assert(s@ =~= old(s)@ + escape_char(c));
    }
}

proof fn lemma_escape_snoc(s: Seq<char>, c: char)
    ensures
        escape_chars(s.push(c)) == escape_chars(s) + escape_char(c),
    decreases s.len(),
{
    if s.len() == 0 {
        assert(s.push(c).drop_first() =~= Seq::<char>::empty());
        assert(s.push(c)[0] == c);
        assert(escape_chars(Seq::<char>::empty()) == Seq::<char>::empty());
        assert(escape_chars(s) == Seq::<char>::empty());
        assert(escape_chars(s.push(c)) == escape_char(c) + Seq::<char>::empty());
        assert(escape_chars(s.push(c)) =~= escape_chars(s) + escape_char(c));
    } else {
        assert(s.push(c).drop_first() =~= s.drop_first().push(c));
        lemma_escape_snoc(s.drop_first(), c);
        assert(escape_chars(s.push(c)) =~= escape_chars(s) + escape_char(c));
    }
}

/// Appends the quoted, escaped form of `t` to `s`.
pub(crate) fn push_quoted(s: &mut String, t: &str)
    ensures
        final(s)@ == old(s)@ + quoted(t@),
{
    push_char(s, '"');
    let n = t.unicode_len();
    let mut i: usize = 0;
    while i < n
        invariant
            n == t@.len(),
            i <= n,
            s@ == old(s)@.push('"') + escape_chars(t@.subrange(0, i as int)),
        decreases n - i,
    {
        let c = t.get_char(i);
        proof {
            assert(t@.subrange(0, i + 1) =~= t@.subrange(0, i as int).push(t@[i as int]));
            lemma_escape_snoc(t@.subrange(0, i as int), t@[i as int]);
        }
        push_escaped_char(s, c);
        i = i + 1;
    }
    push_char(s, '"');
    proof {
        assert(t@.subrange(0, t@.len() as int) =~= t@);
        assert(s@ =~= old(s)@ + quoted(t@));
    }
}

/// Appends the decimal form of a signed value to `s`.
pub(crate) fn push_int(s: &mut String, n: i64)
    ensures
        final(s)@ == old(s)@ + int_chars(n as int),
{
    if n < 0 {
        push_char(s, '-');
        let magnitude: u64 = (-(n as i128)) as u64;
        assert(magnitude == -(n as int)) by (bit_vector)
            requires
                n < 0,
                magnitude == (-(n as i128)) as u64,
        ;
        let d = u64_to_decimal(magnitude);
        s.append(d.as_str());
        assert(s@ =~= old(s)@ + int_chars(n as int));
    } else {
        let d = u64_to_decimal(n as u64);
        s.append(d.as_str());
    }
}

/// Appends the canonical rendering of `v` to `s`.
fn push_json(s: &mut String, v: &JsonValue)
    ensures
        final(s)@ == old(s)@ + json_of(*v),
    decreases *v,
{
    match v {
        JsonValue::Null => {
            proof {
                reveal_strlit("null");
            }
            s.append("null");
            assert(s@ =~= old(s)@ + json_of(*v));
        },
        JsonValue::Bool(b) => {
            if *b {
                proof {
                    reveal_strlit("true");
                }
                s.append("true");
            } else {
                proof {
                    reveal_strlit("false");
                }
                s.append("false");
            }
            assert(s@ =~= old(s)@ + json_of(*v));
        },
        JsonValue::Int(i) => {
            push_int(s, *i);
        },
        JsonValue::UInt(u) => {
            let d = u64_to_decimal(*u);
            s.append(d.as_str());
        },
        JsonValue::Text(t) => {
            push_quoted(s, t.as_str());
        },
        JsonValue::List(items) => {
            push_char(s, '[');
            let n = items.len();
            let mut i: usize = 0;
            while i < n
                invariant
                    n == items@.len(),
                    i <= n,
                    v == JsonValue::List(*items),
                    s@ == old(s)@.push('[') + json_of_items(items@.subrange(0, i as int))
                        + if i > 0 && i < n { seq![','] } else { Seq::<char>::empty() },
                decreases n - i,
            {
                proof {
                    assert(*v == JsonValue::List(*items));
                    assert(decreases_to!(*v => (*v)->List_0));
                    assert((*v)->List_0 == *items);
                    assert(decreases_to!(*items => items@[i as int]));
                    assert(decreases_to!(*v => items@[i as int]));
                }
                push_json(s, &items[i]);
                i = i + 1;
                proof {
                    lemma_items_snoc(items@.subrange(0, i as int));
                    assert(items@.subrange(0, i as int).drop_last() =~= items@.subrange(
                        0,
                        i - 1,
                    ));
                }
                if i < n {
                    push_char(s, ',');
                }
            }
            push_char(s, ']');
            proof {
                assert(items@.subrange(0, items@.len() as int) =~= items@);
                assert(s@ =~= old(s)@ + json_of(*v));
            }
        },
        JsonValue::Object(members) => {
            push_char(s, '{');
            let n = members.len();
            let mut i: usize = 0;
            while i < n
                invariant
                    n == members@.len(),
                    i <= n,
                    v == JsonValue::Object(*members),
                    s@ == old(s)@.push('{') + json_of_members(members@.subrange(0, i as int))
                        + if i > 0 && i < n { seq![','] } else { Seq::<char>::empty() },
                decreases n - i,
            {
                push_quoted(s, members[i].0.as_str());
                push_char(s, ':');
                proof {
                    assert(*v == JsonValue::Object(*members));
                    assert(decreases_to!(*v => (*v)->Object_0));
                    assert((*v)->Object_0 == *members);
                    assert(decreases_to!(*members => members@[i as int]));
                    assert(decreases_to!(members@[i as int] => members@[i as int].1));
                    assert(decreases_to!(*v => members@[i as int].1));
                }
                push_json(s, &members[i].1);
                i = i + 1;
                proof {
                    lemma_members_snoc(members@.subrange(0, i as int));
                    assert(members@.subrange(0, i as int).drop_last() =~= members@.subrange(
                        0,
                        i - 1,
                    ));
                }
                if i < n {
                    push_char(s, ',');
                }
            }
            push_char(s, '}');
            proof {
                assert(members@.subrange(0, members@.len() as int) =~= members@);
                assert(s@ =~= old(s)@ + json_of(*v));
            }
        },
    }
}

/// Unfolds the rendering of a non-empty item list at its last element.
proof fn lemma_items_snoc(items: Seq<JsonValue>)
    requires
        items.len() >= 1,
    ensures
        items.len() == 1 ==> json_of_items(items) == json_of(items[0]),
        items.len() > 1 ==> json_of_items(items) == json_of_items(items.drop_last()) + seq![',']
            + json_of(items.last()),
    decreases items,
{
    if items.len() > 1 {
        lemma_items_snoc(items.drop_first());
        assert(items.drop_first().drop_last() =~= items.drop_last().drop_first());
        if items.len() == 2 {
            assert(json_of_items(items.drop_last()) =~= json_of(items[0]));
        }
        assert(json_of_items(items) =~= json_of_items(items.drop_last()) + seq![',']
            + json_of(items.last()));
    }
}

/// Unfolds the rendering of a non-empty member list at its last element.
proof fn lemma_members_snoc(members: Seq<(String, JsonValue)>)
    requires
        members.len() >= 1,
    ensures
        members.len() == 1 ==> json_of_members(members) == quoted(members[0].0@) + seq![':']
            + json_of(members[0].1),
        members.len() > 1 ==> json_of_members(members) == json_of_members(members.drop_last())
            + seq![','] + quoted(members.last().0@) + seq![':'] + json_of(members.last().1),
    decreases members,
{
    if members.len() > 1 {
        lemma_members_snoc(members.drop_first());
        assert(members.drop_first().drop_last() =~= members.drop_last().drop_first());
        if members.len() == 2 {
            assert(json_of_members(members.drop_last()) =~= quoted(members[0].0@) + seq![':']
                + json_of(members[0].1));
        }
        assert(json_of_members(members) =~= json_of_members(members.drop_last()) + seq![',']
            + quoted(members.last().0@) + seq![':'] + json_of(members.last().1));
    }
}

/// The canonical textual rendering of a value.
pub fn canonical_json(v: &JsonValue) -> (s: String)
    ensures
        s@ == json_of(*v),
{
    let mut s = String::new();
    push_json(&mut s, v);
    s
}

/// `chars_lt` never relates a sequence to itself.
pub proof fn lemma_chars_lt_irreflexive(a: Seq<char>)
    ensures
        !chars_lt(a, a),
    decreases a.len(),
{
    if a.len() > 0 {
        lemma_chars_lt_irreflexive(a.drop_first());
    }
}

/// `chars_lt` is transitive.
pub proof fn lemma_chars_lt_transitive(a: Seq<char>, b: Seq<char>, c: Seq<char>)
    requires
        chars_lt(a, b),
        chars_lt(b, c),
    ensures
        chars_lt(a, c),
    decreases a.len(),
{
    if a.len() > 0 && b.len() > 0 && c.len() > 0 && a[0] == b[0] && b[0] == c[0] {
        lemma_chars_lt_transitive(a.drop_first(), b.drop_first(), c.drop_first());
    }
}

/// Distinct sequences are ordered one way or the other.
pub proof fn lemma_chars_lt_connected(a: Seq<char>, b: Seq<char>)
    requires
        a != b,
    ensures
        chars_lt(a, b) || chars_lt(b, a),
    decreases a.len(),
{
    if a.len() == 0 && b.len() == 0 {
        assert(a =~= b);
    } else if a.len() == 0 {
        assert(chars_lt(a, b));
    } else if b.len() == 0 {
        assert(chars_lt(b, a));
    } else if a[0] == b[0] {
        if a.drop_first() == b.drop_first() {
            assert(a =~= seq![a[0]] + a.drop_first());
            assert(b =~= seq![b[0]] + b.drop_first());
            assert(a == b);
        } else {
            lemma_chars_lt_connected(a.drop_first(), b.drop_first());
            assert(chars_lt(a, b) || chars_lt(b, a));
        }
    } else {
        assert((a[0] as int) != (b[0] as int));
        assert(chars_lt(a, b) || chars_lt(b, a));
    }
}

/// Strict lexicographic comparison of two strings, by code point.
pub fn str_lt(a: &str, b: &str) -> (r: bool)
    ensures
        r == chars_lt(a@, b@),
{
    let na = a.unicode_len();
    let nb = b.unicode_len();
    let mut i: usize = 0;
    proof {
        assert(a@.skip(0) =~= a@);
        assert(b@.skip(0) =~= b@);
    }
    loop
        invariant
            na == a@.len(),
            nb == b@.len(),
            i <= na,
            i <= nb,
            chars_lt(a@, b@) == chars_lt(a@.skip(i as int), b@.skip(i as int)),
        decreases na - i,
    {
        if i >= nb {
            return false;
        }
        if i >= na {
            return true;
        }
        let ca = a.get_char(i);
        let cb = b.get_char(i);
        if ca != cb {
            proof {
                assert(((ca as u32) < (cb as u32)) == ((ca as int) < (cb as int)));
            }
            return (ca as u32) < (cb as u32);
        }
        proof {
            assert(a@.skip(i as int).drop_first() =~= a@.skip(i + 1));
            assert(b@.skip(i as int).drop_first() =~= b@.skip(i + 1));
        }
        i = i + 1;
    }
}

/// Object members in strictly increasing key order.
pub open spec fn keys_sorted(ms: Seq<(String, JsonValue)>) -> bool {
    forall|i: int, j: int|
        0 <= i < j < ms.len() ==> chars_lt(ms[i].0@, ms[j].0@)
}

/// A solution payload: an open-ended key-value map kept in canonical
/// (key-sorted) member order, so that its rendering is insertion-order
/// independent.
pub struct Solution {
    members: Vec<(String, JsonValue)>,
}

impl Solution {
    /// The ordered members.
    pub closed spec fn view(self) -> Seq<(String, JsonValue)> {
        self.members@
    }

    /// Members stand in strictly increasing key order.
    pub open spec fn wf(self) -> bool {
        keys_sorted(self@)
    }

    /// The canonical rendering of the payload.
    pub open spec fn spec_json(self) -> Seq<char> {
        seq!['{'] + json_of_members(self@) + seq!['}']
    }

    /// An empty payload.
    pub fn new() -> (s: Solution)
        ensures
            s@ == Seq::<(String, JsonValue)>::empty(),
            s.wf(),
    {
        Solution { members: Vec::new() }
    }

    /// The number of members.
    pub fn len(&self) -> (n: usize)
        ensures
            n == self@.len(),
    {
        self.members.len()
    }

    /// Places `key: value`, keeping members in key order; an existing
    /// member under the same key is replaced.
    pub fn insert(&mut self, key: String, value: JsonValue)
        requires
            old(self).wf(),
        ensures
            final(self)@ == insert_member(old(self)@, key, value),
            final(self).wf(),
    {
        let ghost ms0 = self.members@;
        let n = self.members.len();
        let mut idx: usize = 0;
        while idx < n && str_lt(self.members[idx].0.as_str(), key.as_str())
            invariant
                self.members@ == ms0,
                n == ms0.len(),
                idx <= n,
                forall|j: int| 0 <= j < idx ==> chars_lt(#[trigger] ms0[j].0@, key@),
            decreases n - idx,
        {
            idx = idx + 1;
        }
        proof {
            lemma_insert_skip(ms0, key, value, idx as int);
        }
        if idx < n && !str_lt(key.as_str(), self.members[idx].0.as_str()) {
            // neither order holds between the keys, so they are equal
            proof {
                if ms0[idx as int].0@ != key@ {
                    lemma_chars_lt_connected(ms0[idx as int].0@, key@);
                }
                assert(ms0.skip(idx as int)[0] == ms0[idx as int]);
            }
            self.members.set(idx, (key, value));
            proof {
                assert(ms0.skip(idx as int).drop_first() =~= ms0.skip(idx + 1));
                assert(self.members@ =~= ms0.take(idx as int) + (seq![(key, value)] + ms0.skip(
                    idx + 1,
                )));
                lemma_insert_member_sorted(ms0, key, value);
            }
        } else {
            proof {
                if idx < n {
                    assert(ms0.skip(idx as int)[0] == ms0[idx as int]);
                    if ms0[idx as int].0@ != key@ && !chars_lt(key@, ms0[idx as int].0@) {
                        lemma_chars_lt_connected(ms0[idx as int].0@, key@);
                    }
                } else {
                    assert(ms0.skip(idx as int).len() == 0);
                }
            }
            self.members.insert(idx, (key, value));
            proof {
                assert(self.members@ =~= ms0.take(idx as int) + (seq![(key, value)] + ms0.skip(
                    idx as int,
                )));
                lemma_insert_member_sorted(ms0, key, value);
            }
        }
    }
}

/// The key-ordered placement of `key: value` in a member list: members with
/// smaller keys stay in front, a member with the same key is replaced, the
/// rest stays behind.
pub open spec fn insert_member(
    ms: Seq<(String, JsonValue)>,
    key: String,
    value: JsonValue,
) -> Seq<(String, JsonValue)>
    decreases ms.len(),
{
    if ms.len() == 0 {
        seq![(key, value)]
    } else if chars_lt(key@, ms[0].0@) {
        seq![(key, value)] + ms
    } else if key@ == ms[0].0@ {
        seq![(key, value)] + ms.drop_first()
    } else {
        seq![ms[0]] + insert_member(ms.drop_first(), key, value)
    }
}

/// Placement passes over every member whose key lies below the new one.
proof fn lemma_insert_skip(ms: Seq<(String, JsonValue)>, key: String, value: JsonValue, i: int)
    requires
        0 <= i <= ms.len(),
        forall|j: int| 0 <= j < i ==> chars_lt(#[trigger] ms[j].0@, key@),
    ensures
        insert_member(ms, key, value) == ms.take(i) + insert_member(ms.skip(i), key, value),
    decreases i,
{
    if i == 0 {
        assert(ms.take(0) =~= Seq::<(String, JsonValue)>::empty());
        assert(ms.skip(0) =~= ms);
        assert(insert_member(ms, key, value) =~= ms.take(0) + insert_member(
            ms.skip(0),
            key,
            value,
        ));
    } else {
        assert(chars_lt(ms[0].0@, key@));
        lemma_chars_lt_irreflexive(key@);
        if chars_lt(key@, ms[0].0@) {
            lemma_chars_lt_transitive(key@, ms[0].0@, key@);
        }
        assert(forall|j: int|
            0 <= j < i - 1 ==> #[trigger] ms.drop_first()[j].0@ == ms[j + 1].0@);
        lemma_insert_skip(ms.drop_first(), key, value, i - 1);
        assert(ms.drop_first().take(i - 1) =~= ms.take(i).drop_first());
        assert(ms.drop_first().skip(i - 1) =~= ms.skip(i));
        assert(insert_member(ms, key, value) =~= seq![ms[0]] + insert_member(
            ms.drop_first(),
            key,
            value,
        ));
        assert(seq![ms[0]] + (ms.take(i).drop_first() + insert_member(ms.skip(i), key, value))
            =~= ms.take(i) + insert_member(ms.skip(i), key, value));
    }
}

/// Placement keeps the member list key-sorted.
pub proof fn lemma_insert_member_sorted(ms: Seq<(String, JsonValue)>, key: String, value: JsonValue)
    requires
        keys_sorted(ms),
    ensures
        keys_sorted(insert_member(ms, key, value)),
    decreases ms.len(),
{
    let r = insert_member(ms, key, value);
    if ms.len() == 0 {
    } else if chars_lt(key@, ms[0].0@) {
        assert forall|i: int, j: int| 0 <= i < j < r.len() implies chars_lt(
            r[i].0@,
            r[j].0@,
        ) by {
            if i == 0 && j > 1 {
                lemma_chars_lt_transitive(key@, ms[0].0@, ms[j - 1].0@);
            }
        }
    } else if key@ == ms[0].0@ {
        assert forall|i: int, j: int| 0 <= i < j < r.len() implies chars_lt(
            r[i].0@,
            r[j].0@,
        ) by {}
    } else {
        lemma_chars_lt_connected(key@, ms[0].0@);
        assert(chars_lt(ms[0].0@, key@));
        assert(forall|i: int, j: int|
            0 <= i < j < ms.drop_first().len() ==> chars_lt(
                #[trigger] ms.drop_first()[i].0@,
                #[trigger] ms.drop_first()[j].0@,
            ));
        lemma_insert_member_sorted(ms.drop_first(), key, value);
        let rr = insert_member(ms.drop_first(), key, value);
        assert forall|i: int, j: int| 0 <= i < j < r.len() implies chars_lt(
            r[i].0@,
            r[j].0@,
        ) by {
            if i == 0 {
                lemma_insert_member_key_bound(ms.drop_first(), key, value, ms[0].0@, j - 1);
            }
        }
    }
}

/// Every key of a placement result is either the new key or an old one.
proof fn lemma_insert_member_key_bound(
    ms: Seq<(String, JsonValue)>,
    key: String,
    value: JsonValue,
    low: Seq<char>,
    j: int,
)
    requires
        chars_lt(low, key@),
        forall|i: int| 0 <= i < ms.len() ==> chars_lt(low, #[trigger] ms[i].0@),
        0 <= j < insert_member(ms, key, value).len(),
    ensures
        chars_lt(low, insert_member(ms, key, value)[j].0@),
    decreases ms.len(),
{
    if ms.len() == 0 {
    } else if chars_lt(key@, ms[0].0@) {
    } else if key@ == ms[0].0@ {
    } else {
        if j > 0 {
            assert(forall|i: int|
                0 <= i < ms.drop_first().len() ==> chars_lt(
                    low,
                    #[trigger] ms.drop_first()[i].0@,
                ));
            lemma_insert_member_key_bound(ms.drop_first(), key, value, low, j - 1);
        }
    }
}

/// Key-sorted member lists holding the same members are the same list:
/// the canonical form is unique.
pub proof fn lemma_sorted_members_unique(
    x: Seq<(String, JsonValue)>,
    y: Seq<(String, JsonValue)>,
)
    requires
        keys_sorted(x),
        keys_sorted(y),
        x.to_multiset() == y.to_multiset(),
    ensures
        x == y,
    decreases x.len(),
{
    x.to_multiset_ensures();
    y.to_multiset_ensures();
    if x.len() == 0 {
        assert(y.to_multiset().len() == 0);
        assert(y =~= x);
    } else {
        assert(y.len() == x.len());
        assert(x.contains(x[0]));
        assert(x.to_multiset().contains(x[0]));
        assert(y.contains(x[0]));
        assert(y.contains(y[0]));
        assert(y.to_multiset().contains(y[0]));
        assert(x.contains(y[0]));
        let j = choose|j: int| 0 <= j < y.len() && y[j] == x[0];
        let i = choose|i: int| 0 <= i < x.len() && x[i] == y[0];
        if i > 0 && j > 0 {
            assert(chars_lt(y[0].0@, y[j].0@));
            assert(chars_lt(x[0].0@, x[i].0@));
            lemma_chars_lt_transitive(x[0].0@, y[0].0@, x[0].0@);
            lemma_chars_lt_irreflexive(x[0].0@);
        }
        assert(x[0] == y[0]);
        assert(x.remove(0).to_multiset() =~= x.to_multiset().remove(x[0]));
        assert(y.remove(0).to_multiset() =~= y.to_multiset().remove(y[0]));
        assert(x.remove(0) =~= x.drop_first());
        assert(y.remove(0) =~= y.drop_first());
        assert(forall|p: int, q: int|
            0 <= p < q < x.drop_first().len() ==> chars_lt(
                #[trigger] x.drop_first()[p].0@,
                #[trigger] x.drop_first()[q].0@,
            ));
        assert(forall|p: int, q: int|
            0 <= p < q < y.drop_first().len() ==> chars_lt(
                #[trigger] y.drop_first()[p].0@,
                #[trigger] y.drop_first()[q].0@,
            ));
        lemma_sorted_members_unique(x.drop_first(), y.drop_first());
        assert(x =~= seq![x[0]] + x.drop_first());
        assert(y =~= seq![y[0]] + y.drop_first());
    }
}

/// Placing a fresh key adds its pair to the members, seen as a multiset.
pub proof fn lemma_insert_member_fresh(
    ms: Seq<(String, JsonValue)>,
    key: String,
    value: JsonValue,
)
    requires
        forall|i: int| 0 <= i < ms.len() ==> (#[trigger] ms[i].0@) != key@,
    ensures
        insert_member(ms, key, value).to_multiset() == ms.to_multiset().insert((key, value)),
    decreases ms.len(),
{
    ms.to_multiset_ensures();
    let r = insert_member(ms, key, value);
    r.to_multiset_ensures();
    if ms.len() == 0 {
        assert(r =~= seq![(key, value)]);
        assert(seq![(key, value)].to_multiset() =~= Seq::<(String, JsonValue)>::empty().push(
            (key, value),
        ).to_multiset());
        Seq::<(String, JsonValue)>::empty().to_multiset_ensures();
        assert(r.to_multiset() =~= ms.to_multiset().insert((key, value)));
    } else if chars_lt(key@, ms[0].0@) {
        assert(r =~= (seq![(key, value)] + ms));
        assert(r.remove(0) =~= ms);
        assert(r.to_multiset().remove(r[0]) =~= ms.to_multiset());
        assert(r.to_multiset() =~= ms.to_multiset().insert((key, value)));
    } else {
        assert(ms[0].0@ != key@);
        assert(forall|i: int|
            0 <= i < ms.drop_first().len() ==> (#[trigger] ms.drop_first()[i].0@) != key@);
        lemma_insert_member_fresh(ms.drop_first(), key, value);
        ms.drop_first().to_multiset_ensures();
        let rr = insert_member(ms.drop_first(), key, value);
        rr.to_multiset_ensures();
        assert(r =~= seq![ms[0]] + rr);
        assert(r.remove(0) =~= rr);
        assert(r.to_multiset().remove(r[0]) =~= rr.to_multiset());
        assert(ms.remove(0) =~= ms.drop_first());
        assert(ms.to_multiset().remove(ms[0]) =~= ms.drop_first().to_multiset());
        assert(r.to_multiset() =~= rr.to_multiset().insert(ms[0]));
        assert(ms.to_multiset() =~= ms.drop_first().to_multiset().insert(ms[0]));
        assert(r.to_multiset() =~= ms.to_multiset().insert((key, value)));
    }
}

/// Whether some member of the list carries this key.
pub open spec fn has_key(ms: Seq<(String, JsonValue)>, k: Seq<char>) -> bool {
    exists|i: int| 0 <= i < ms.len() && ms[i].0@ == k
}

/// Placement adds the new key to the member list's keys and keeps the rest.
proof fn lemma_insert_member_keys(
    ms: Seq<(String, JsonValue)>,
    key: String,
    value: JsonValue,
    k: Seq<char>,
)
    ensures
        has_key(insert_member(ms, key, value), k) <==> (has_key(ms, k) || k == key@),
    decreases ms.len(),
{
    let r = insert_member(ms, key, value);
    if ms.len() == 0 {
        assert(r == seq![(key, value)]);
        assert(r[0].0@ == key@);
        if has_key(r, k) {
            let i = choose|i: int| 0 <= i < r.len() && r[i].0@ == k;
            assert(i == 0);
        }
    } else if chars_lt(key@, ms[0].0@) {
        assert(r == seq![(key, value)] + ms);
        if has_key(ms, k) {
            let i = choose|i: int| 0 <= i < ms.len() && ms[i].0@ == k;
            assert(r[i + 1].0@ == k);
        }
        if k == key@ {
            assert(r[0].0@ == k);
        }
        if has_key(r, k) {
            let i = choose|i: int| 0 <= i < r.len() && r[i].0@ == k;
            if i > 0 {
                assert(ms[i - 1].0@ == k);
            }
        }
    } else if key@ == ms[0].0@ {
        assert(r == seq![(key, value)] + ms.drop_first());
        if has_key(ms, k) && k != key@ {
            let i = choose|i: int| 0 <= i < ms.len() && ms[i].0@ == k;
            assert(i > 0);
            assert(r[i].0@ == k);
        }
        if has_key(r, k) {
            let i = choose|i: int| 0 <= i < r.len() && r[i].0@ == k;
            if i > 0 {
                assert(ms[i].0@ == k);
            }
        }
    } else {
        lemma_insert_member_keys(ms.drop_first(), key, value, k);
        let rr = insert_member(ms.drop_first(), key, value);
        assert(r == seq![ms[0]] + rr);
        if has_key(ms, k) && ms[0].0@ != k {
            let i = choose|i: int| 0 <= i < ms.len() && ms[i].0@ == k;
            assert(ms.drop_first()[i - 1].0@ == k);
        }
        if has_key(rr, k) {
            let i = choose|i: int| 0 <= i < rr.len() && rr[i].0@ == k;
            assert(r[i + 1].0@ == k);
        }
        if has_key(r, k) {
            let i = choose|i: int| 0 <= i < r.len() && r[i].0@ == k;
            if i > 0 {
                assert(rr[i - 1].0@ == k);
            } else {
                assert(ms[0].0@ == r[0].0@);
            }
        }
        if has_key(ms.drop_first(), k) {
            let i = choose|i: int| 0 <= i < ms.drop_first().len() && ms.drop_first()[i].0@ == k;
            assert(ms[i + 1].0@ == k);
        }
    }
}

/// No two pairs carry the same key.
pub open spec fn pairs_keys_distinct(pairs: Seq<(String, JsonValue)>) -> bool {
    forall|i: int, j: int| 0 <= i < j < pairs.len() ==> pairs[i].0@ != pairs[j].0@
}

/// The members that placing each pair of a list in turn produces.
pub open spec fn built_members(pairs: Seq<(String, JsonValue)>) -> Seq<(String, JsonValue)>
    decreases pairs.len(),
{
    if pairs.len() == 0 {
        Seq::empty()
    } else {
        insert_member(built_members(pairs.drop_last()), pairs.last().0, pairs.last().1)
    }
}

/// Building from a duplicate-free pair list yields exactly those pairs, in
/// canonical key order.
pub proof fn lemma_built_members(pairs: Seq<(String, JsonValue)>)
    requires
        pairs_keys_distinct(pairs),
    ensures
        keys_sorted(built_members(pairs)),
        built_members(pairs).to_multiset() == pairs.to_multiset(),
        forall|k: Seq<char>| has_key(built_members(pairs), k) <==> has_key(pairs, k),
    decreases pairs.len(),
{
    pairs.to_multiset_ensures();
    if pairs.len() == 0 {
        assert(built_members(pairs) =~= pairs);
    } else {
        let front = pairs.drop_last();
        let built_front = built_members(front);
        front.to_multiset_ensures();
        assert(pairs_keys_distinct(front));
        lemma_built_members(front);
        let key = pairs.last().0;
        let value = pairs.last().1;
        lemma_insert_member_sorted(built_front, key, value);
        assert(!has_key(front, key@)) by {
            if has_key(front, key@) {
                let i = choose|i: int| 0 <= i < front.len() && front[i].0@ == key@;
                assert(pairs[i].0@ == pairs[pairs.len() - 1].0@);
            }
        }
        assert(forall|i: int|
            0 <= i < built_front.len() ==> (#[trigger] built_front[i].0@) != key@);
        lemma_insert_member_fresh(built_front, key, value);
        assert(pairs =~= front.push(pairs.last()));
        assert(pairs.to_multiset() =~= front.to_multiset().insert(pairs.last()));
        assert(built_members(pairs).to_multiset() =~= pairs.to_multiset());
        assert forall|k: Seq<char>|
            has_key(built_members(pairs), k) <==> has_key(pairs, k) by {
            lemma_insert_member_keys(built_front, key, value, k);
            if has_key(front, k) {
                let i = choose|i: int| 0 <= i < front.len() && front[i].0@ == k;
                assert(pairs[i].0@ == k);
            }
            if has_key(pairs, k) && k != key@ {
                let i = choose|i: int| 0 <= i < pairs.len() && pairs[i].0@ == k;
                assert(i < pairs.len() - 1);
                assert(front[i].0@ == k);
            }
            assert(pairs[pairs.len() - 1].0@ == key@);
        }
    }
}

/// Insertion order does not matter: duplicate-free pair lists holding the
/// same pairs build the identical canonical member list, and hence the
/// identical rendering and hash.
pub proof fn lemma_build_order_irrelevant(
    pairs1: Seq<(String, JsonValue)>,
    pairs2: Seq<(String, JsonValue)>,
)
    requires
        pairs_keys_distinct(pairs1),
        pairs_keys_distinct(pairs2),
        pairs1.to_multiset() == pairs2.to_multiset(),
    ensures
        built_members(pairs1) == built_members(pairs2),
{
    lemma_built_members(pairs1);
    lemma_built_members(pairs2);
    lemma_sorted_members_unique(built_members(pairs1), built_members(pairs2));
}

/// Renders a payload in its canonical textual form.
pub fn solution_json(s: &Solution) -> (r: String)
    ensures
        r@ == s.spec_json(),
{
    let mut out = String::new();
    push_char(&mut out, '{');
    let n = s.members_len_internal();
    let mut i: usize = 0;
    while i < n
        invariant
            n == s@.len(),
            i <= n,
            out@ == seq!['{'] + json_of_members(s@.subrange(0, i as int)) + if i > 0 && i < n {
                seq![',']
            } else {
                Seq::<char>::empty()
            },
        decreases n - i,
    {
        let m = s.member_at(i);
        push_quoted(&mut out, m.0.as_str());
        push_char(&mut out, ':');
        push_json(&mut out, &m.1);
        i = i + 1;
        proof {
            lemma_members_snoc(s@.subrange(0, i as int));
            assert(s@.subrange(0, i as int).drop_last() =~= s@.subrange(0, i - 1));
        }
        if i < n {
            push_char(&mut out, ',');
        }
    }
    push_char(&mut out, '}');
    proof {
        assert(s@.subrange(0, s@.len() as int) =~= s@);
        assert(out@ =~= s.spec_json());
    }
    out
}

impl Solution {
    fn members_len_internal(&self) -> (n: usize)
        ensures
            n == self@.len(),
    {
        self.members.len()
    }

    /// The member at a position, in key order.
    pub fn member_at(&self, i: usize) -> (m: &(String, JsonValue))
        requires
            i < self@.len(),
        ensures
            *m == self@[i as int],
    {
        &self.members[i]
    }
}

} // verus!
