//! A structured value for event headers and bodies, and boolean lookups along
//! slash-delimited pointers such as `/identity/verified`.
use vstd::prelude::*;

verus! {

/// A JSON-like value. Numbers are kept as their literal text.
#[derive(Debug)]
pub enum JsonValue {
    Null,
    Bool(bool),
    Number(String),
    Str(String),
    Array(Vec<JsonValue>),
    Object(Vec<(String, JsonValue)>),
}

impl Clone for JsonValue {
    fn clone(&self) -> (r: JsonValue)
        decreases self,
    {
        match self {
            JsonValue::Null => JsonValue::Null,
            JsonValue::Bool(b) => JsonValue::Bool(*b),
            JsonValue::Number(n) => JsonValue::Number(n.clone()),
            JsonValue::Str(t) => JsonValue::Str(t.clone()),
            JsonValue::Array(items) => {
                let mut out: Vec<JsonValue> = Vec::new();
                let mut i: usize = 0;
                while i < items.len()
                    invariant
                        i <= items@.len(),
                        *self == JsonValue::Array(*items),
                    decreases items@.len() - i,
                {
                    proof {
                        let v = *self;
                        assert(v->Array_0 == *items);
                        assert(decreases_to!(v => v->Array_0));
                        vstd::std_specs::vec::axiom_vec_index_decreases(v->Array_0, i as int);
                        assert(decreases_to!(v => v->Array_0[i as int]));
                    }
                    out.push(items[i].clone());
                    i = i + 1;
                }
                JsonValue::Array(out)
            },
            JsonValue::Object(entries) => {
                let mut out: Vec<(String, JsonValue)> = Vec::new();
                let mut i: usize = 0;
                while i < entries.len()
                    invariant
                        i <= entries@.len(),
                        *self == JsonValue::Object(*entries),
                    decreases entries@.len() - i,
                {
                    proof {
                        let v = *self;
                        assert(v->Object_0 == *entries);
                        assert(decreases_to!(v => v->Object_0));
                        vstd::std_specs::vec::axiom_vec_index_decreases(v->Object_0, i as int);
                        assert(decreases_to!(v => v->Object_0[i as int]));
                        assert(decreases_to!(v->Object_0[i as int] => v->Object_0[i as int].1));
                    }
                    out.push((entries[i].0.clone(), entries[i].1.clone()));
                    i = i + 1;
                }
                JsonValue::Object(out)
            },
        }
    }
}

/// The value stored under `key` in an object's entries (the first match).
pub open spec fn find_entry(entries: Seq<(String, JsonValue)>, key: Seq<char>) -> Option<JsonValue>
    decreases entries.len(),
{
    if entries.len() == 0 {
        None
    } else if entries[0].0@ == key {
        Some(entries[0].1)
    } else {
        find_entry(entries.drop_first(), key)
    }
}

/// No two entries share a key.
pub open spec fn keys_distinct(entries: Seq<(String, JsonValue)>) -> bool {
    forall|i: int, j: int|
        0 <= i < j < entries.len() ==> (#[trigger] entries[i]).0@ != (#[trigger] entries[j]).0@
}

/// A well-formed value: every object in it, however deeply nested, has
/// distinct keys.
pub open spec fn well_formed(v: JsonValue) -> bool
    decreases v,
{
    match v {
        JsonValue::Array(items) => forall|i: int|
            0 <= i < items.len() ==> well_formed(#[trigger] items[i]),
        JsonValue::Object(entries) => keys_distinct(entries@) && forall|i: int|
            0 <= i < entries.len() ==> well_formed(#[trigger] entries[i].1),
        _ => true,
    }
}

/// With distinct keys, the entry found for a key is the one entry holding it,
/// wherever it stands.
pub proof fn lemma_find_entry_distinct(entries: Seq<(String, JsonValue)>, i: int)
    requires
        keys_distinct(entries),
        0 <= i < entries.len(),
    ensures
        find_entry(entries, entries[i].0@) == Some(entries[i].1),
    decreases i,
{
    if i > 0 {
        let rest = entries.drop_first();
        assert(entries[0].0@ != entries[i].0@);
        assert forall|a: int, b: int| 0 <= a < b < rest.len() implies (#[trigger] rest[a]).0@
            != (#[trigger] rest[b]).0@ by {
            assert(rest[a] == entries[a + 1] && rest[b] == entries[b + 1]);
        }
        assert(rest[i - 1] == entries[i]);
        lemma_find_entry_distinct(rest, i - 1);
    }
}

/// The member `key` of `v`; only objects have members.
pub open spec fn child(v: JsonValue, key: Seq<char>) -> Option<JsonValue> {
    match v {
        JsonValue::Object(entries) => find_entry(entries@, key),
        _ => None,
    }
}

/// The value reached from `v` by following the keys of `path` in turn.
pub open spec fn lookup_path(v: JsonValue, path: Seq<Seq<char>>) -> Option<JsonValue>
    decreases path.len(),
{
    if path.len() == 0 {
        Some(v)
    } else {
        match child(v, path[0]) {
            Some(c) => lookup_path(c, path.drop_first()),
            None => None,
        }
    }
}

/// The flag stored at `path`: a missing path or a non-boolean value reads as `false`.
pub open spec fn flag_at(v: JsonValue, path: Seq<Seq<char>>) -> bool {
    match lookup_path(v, path) {
        Some(JsonValue::Bool(b)) => b,
        _ => false,
    }
}

/// `p` without its leading slashes.
pub open spec fn strip_slashes(p: Seq<char>) -> Seq<char>
    decreases p.len(),
{
    if p.len() > 0 && p[0] == '/' {
        strip_slashes(p.drop_first())
    } else {
        p
    }
}

/// The pieces of `p` between slashes; there is always at least one.
pub open spec fn split_slash(p: Seq<char>) -> Seq<Seq<char>>
    decreases p.len(),
{
    if p.len() == 0 {
        seq![Seq::empty()]
    } else {
        let s = split_slash(p.drop_last());
        if p.last() == '/' {
            s.push(Seq::empty())
        } else {
            s.update(s.len() - 1, s.last().push(p.last()))
        }
    }
}

/// The keys that a pointer such as `/a/b` names.
pub open spec fn pointer_path(p: Seq<char>) -> Seq<Seq<char>> {
    split_slash(strip_slashes(p))
}

/// The text stored under `key` in `v`, when it is a string.
pub open spec fn text_member(v: JsonValue, key: Seq<char>) -> Option<Seq<char>> {
    match child(v, key) {
        Some(JsonValue::Str(s)) => Some(s@),
        _ => None,
    }
}

/// The number of entries of `v`, when it is an object.
pub open spec fn object_len(v: JsonValue) -> Option<nat> {
    match v {
        JsonValue::Object(entries) => Some(entries@.len()),
        _ => None,
    }
}

/// The views of a sequence of keys.
pub open spec fn keys_view(path: Seq<String>) -> Seq<Seq<char>> {
    path.map_values(|s: String| s@)
}

proof fn lemma_split_nonempty(p: Seq<char>)
    ensures
        split_slash(p).len() >= 1,
    decreases p.len(),
{
    if p.len() > 0 {
        lemma_split_nonempty(p.drop_last());
    }
}

/// The keys named by a slash-delimited pointer; leading slashes are ignored.
pub fn parse_pointer(p: &str) -> (r: Vec<String>)
    ensures
        keys_view(r@) == pointer_path(p@),
{
    let n = p.unicode_len();
    let mut k: usize = 0;
    assert(p@.skip(0) =~= p@);
    while k < n && p.get_char(k) == '/'
        invariant
            k <= n,
            n == p@.len(),
            strip_slashes(p@) == strip_slashes(p@.skip(k as int)),
        decreases n - k,
    {
        assert(p@.skip(k as int).drop_first() =~= p@.skip(k as int + 1));
        k = k + 1;
    }
    let q = p.substring_char(k, n);
    assert(q@ =~= p@.skip(k as int));
    assert(strip_slashes(q@) == q@);
    let m = q.unicode_len();
    let mut segs: Vec<String> = Vec::new();
    let mut start: usize = 0;
    let mut i: usize = 0;
    assert(q@.take(0) =~= Seq::<char>::empty());
    assert(keys_view(segs@).push(q@.subrange(0, 0)) =~= split_slash(q@.take(0)));
    while i < m
        invariant
            start <= i <= m,
            m == q@.len(),
            keys_view(segs@).push(q@.subrange(start as int, i as int)) == split_slash(
                q@.take(i as int),
            ),
        decreases m - i,
    {
        let c = q.get_char(i);
        let ghost t = q@.take(i as int + 1);
        assert(t.drop_last() =~= q@.take(i as int));
        assert(t.last() == c);
        proof {
            lemma_split_nonempty(q@.take(i as int));
        }
        if c == '/' {
            let piece = q.substring_char(start, i);
            let ghost before = segs@;
            segs.push(String::from_str(piece));
            assert(keys_view(segs@) =~= keys_view(before).push(piece@));
            start = i + 1;
            assert(q@.subrange(start as int, i as int + 1) =~= Seq::<char>::empty());
            assert(split_slash(t) == split_slash(q@.take(i as int)).push(Seq::empty()));
            assert(keys_view(segs@).push(q@.subrange(start as int, i as int + 1)) =~= split_slash(
                t,
            ));
        } else {
            assert(q@.subrange(start as int, i as int + 1) =~= q@.subrange(
                start as int,
                i as int,
            ).push(c));
            assert(keys_view(segs@).push(q@.subrange(start as int, i as int + 1)) =~= split_slash(
                t,
            ));
        }
        i = i + 1;
    }
    let last = q.substring_char(start, m);
    let ghost before = segs@;
    segs.push(String::from_str(last));
    assert(keys_view(segs@) =~= keys_view(before).push(last@));
    assert(q@.take(m as int) =~= q@);
    segs
}

/// Index of the first entry whose key is `key`, if any.
fn find_key(entries: &Vec<(String, JsonValue)>, key: &String) -> (r: Option<usize>)
    ensures
        match r {
            Some(i) => i < entries@.len() && find_entry(entries@, key@) == Some(entries@[i as int].1),
            None => find_entry(entries@, key@) is None,
        },
{
    let mut i: usize = 0;
    assert(entries@.skip(0) =~= entries@);
    while i < entries.len()
        invariant
            i <= entries@.len(),
            find_entry(entries@, key@) == find_entry(entries@.skip(i as int), key@),
        decreases entries@.len() - i,
    {
        if entries[i].0 == *key {
            return Some(i);
        }
        assert(entries@.skip(i as int).drop_first() =~= entries@.skip(i as int + 1));
        i = i + 1;
    }
    None
}

/// Reads the boolean stored at `path` in `v`; a missing path or a value that
/// is not a boolean reads as `false`.
pub fn flag_at_path(v: &JsonValue, path: &Vec<String>) -> (r: bool)
    ensures
        r == flag_at(*v, keys_view(path@)),
{
    let ghost full = keys_view(path@);
    let mut cur: &JsonValue = v;
    let mut j: usize = 0;
    assert(full.skip(0) =~= full);
    while j < path.len()
        invariant
            j <= path@.len(),
            full == keys_view(path@),
            lookup_path(*v, full) == lookup_path(*cur, full.skip(j as int)),
        decreases path@.len() - j,
    {
        let ghost rest = full.skip(j as int);
        assert(rest.drop_first() =~= full.skip(j as int + 1));
        assert(rest[0] == path@[j as int]@);
        match cur {
            JsonValue::Object(entries) => {
                match find_key(entries, &path[j]) {
                    Some(idx) => {
                        cur = &entries[idx].1;
                    },
                    None => {
                        return false;
                    },
                }
            },
            _ => {
                return false;
            },
        }
        j = j + 1;
    }
    assert(full.skip(j as int) =~= Seq::<Seq<char>>::empty());
    match cur {
        JsonValue::Bool(b) => *b,
        _ => false,
    }
}

} // verus!
