//! Extract and inject TOML configs from Helm values YAML documents.
//!
//! Handles the pattern where an Aura TOML config is embedded inside a
//! YAML values file under a key like `config.content: |`.  The YAML text is
//! read into a `YamlValue` (and written back from one) outside the library;
//! here the document is navigated along a dotted key path.
use vstd::prelude::*;
use crate::error::Error;
use serde_yaml::Value;
use serde_yaml::Error as YamlError;
use serde_yaml::value::{Tag, TaggedValue};
use crate::text::{next_char, lemma_next_char, chars_of, find_char, substring, owned, concat2, concat3};

verus! {

/// A YAML document node.  Mappings keep their entries in document order;
/// numbers keep their text.
#[derive(Debug)]
pub enum YamlValue {
    Null,
    Bool(bool),
    Number(String),
    String(String),
    Sequence(Vec<YamlValue>),
    Mapping(Vec<(YamlValue, YamlValue)>),
    Tagged(String, Box<YamlValue>),
}

/// The node under any tags.
pub open spec fn untag(v: YamlValue) -> YamlValue
    decreases v,
{
    match v {
        YamlValue::Tagged(_, inner) => untag(*inner),
        _ => v,
    }
}

/// The entry of `m` at `i` has the string key `k`.
pub open spec fn has_string_key(m: Seq<(YamlValue, YamlValue)>, i: int, k: Seq<char>) -> bool {
    m[i].0 matches YamlValue::String(s) && s@ == k
}

/// The first position at or after `from` whose key is the string `k`, or -1.
pub open spec fn key_index(m: Seq<(YamlValue, YamlValue)>, k: Seq<char>, from: int) -> int
    decreases m.len() - from,
{
    if from < 0 || from >= m.len() {
        -1
    } else if has_string_key(m, from, k) {
        from
    } else {
        key_index(m, k, from + 1)
    }
}

/// The value of the mapping entries `m` under the string key `k`.
pub open spec fn mapping_get(m: Seq<(YamlValue, YamlValue)>, k: Seq<char>) -> Option<YamlValue> {
    let i = key_index(m, k, 0);
    if i >= 0 {
        Some(m[i].1)
    } else {
        None
    }
}

/// `Value::get` with a string key: the value under `k` when `v` is (under
/// its tags) a mapping that has it.
pub open spec fn yaml_get(v: YamlValue, k: Seq<char>) -> Option<YamlValue> {
    match untag(v) {
        YamlValue::Mapping(m) => mapping_get(m@, k),
        _ => None,
    }
}

/// `Value::as_str`: the text of `v` when it is (under its tags) a string.
pub open spec fn yaml_as_str(v: YamlValue) -> Option<Seq<char>> {
    match untag(v) {
        YamlValue::String(s) => Some(s@),
        _ => None,
    }
}

/// The kind of `v`, as error messages name it.
pub open spec fn yaml_type_name(v: YamlValue) -> Seq<char> {
    match v {
        YamlValue::Null => "null"@,
        YamlValue::Bool(_) => "bool"@,
        YamlValue::Number(_) => "number"@,
        YamlValue::String(_) => "string"@,
        YamlValue::Sequence(_) => "array"@,
        YamlValue::Mapping(_) => "object"@,
        YamlValue::Tagged(_, _) => "tagged"@,
    }
}

/// The pieces of `s` from position `p` on, split at `c` (`str::split`).
pub open spec fn split_from(s: Seq<char>, c: char, p: int) -> Seq<Seq<char>>
    decreases s.len() + 1 - p,
{
    if p < 0 || p > s.len() {
        seq![]
    } else {
        let j = next_char(s, c, p);
        proof {
            if p < s.len() {
                lemma_next_char(s, c, p);
            }
        }
        seq![s.subrange(p, j)] + if j < s.len() {
            split_from(s, c, j + 1)
        } else {
            seq![]
        }
    }
}

/// The dot-separated keys of a key path.
pub open spec fn path_keys(key_path: Seq<char>) -> Seq<Seq<char>> {
    split_from(key_path, '.', 0)
}

/// Following `keys` from `v`: the node reached, or the first key not found.
pub open spec fn lookup_path(v: YamlValue, keys: Seq<Seq<char>>) -> Result<YamlValue, Seq<char>>
    decreases keys.len(),
{
    if keys.len() == 0 {
        Ok(v)
    } else {
        match yaml_get(v, keys[0]) {
            Some(c) => lookup_path(c, keys.drop_first()),
            None => Err(keys[0]),
        }
    }
}

/// The text at `key_path` in `v`, or the detail of the configuration error.
pub open spec fn spec_extract(v: YamlValue, key_path: Seq<char>) -> Result<Seq<char>, Seq<char>> {
    match lookup_path(v, path_keys(key_path)) {
        Err(k) => Err("key '"@ + k + "' not found in YAML (path: "@ + key_path + ")"@),
        Ok(c) => match yaml_as_str(c) {
            Some(s) => Ok(s),
            None => Err("value at '"@ + key_path + "' is not a string (found \""@
                + yaml_type_name(c) + "\")"@),
        },
    }
}

/// Setting a value along `keys` from `v` succeeds: every node on the way is
/// a mapping (missing keys get new empty mappings).
pub open spec fn set_path_ok(v: YamlValue, keys: Seq<Seq<char>>) -> bool
    decreases keys.len(),
{
    if keys.len() == 0 {
        false
    } else if keys.len() == 1 {
        v is Mapping
    } else {
        match v {
            YamlValue::Mapping(m) => match mapping_get(m@, keys[0]) {
                Some(c) => set_path_ok(c, keys.drop_first()),
                None => true,
            },
            _ => false,
        }
    }
}

/// Why setting a value along `keys` from `v` fails.
pub open spec fn set_path_error(v: YamlValue, keys: Seq<Seq<char>>) -> Seq<char>
    decreases keys.len(),
{
    if keys.len() == 0 {
        "empty key path"@
    } else if keys.len() == 1 {
        "cannot set key '"@ + keys[0] + "' on non-mapping"@
    } else {
        match v {
            YamlValue::Mapping(m) => match mapping_get(m@, keys[0]) {
                Some(c) => set_path_error(c, keys.drop_first()),
                None => Seq::empty(),
            },
            _ => "cannot traverse key '"@ + keys[0] + "' on non-mapping"@,
        }
    }
}

/// `v` is the string `value`.
pub open spec fn is_string_value(v: YamlValue, value: Seq<char>) -> bool {
    v matches YamlValue::String(s) && s@ == value
}

/// `new` is what setting `value` at `keys` gives below a mapping whose
/// entries are `m`: the entry under `keys[0]` keeps its place (or is
/// appended when missing) and every other entry stays as it was.
pub open spec fn sets_in_entries(
    m: Seq<(YamlValue, YamlValue)>,
    new: YamlValue,
    keys: Seq<Seq<char>>,
    value: Seq<char>,
) -> bool
    decreases keys.len(), 0int,
{
    if keys.len() == 0 {
        false
    } else {
        match new {
            YamlValue::Mapping(n) => {
                let i = key_index(m, keys[0], 0);
                let rest = keys.drop_first();
                if i >= 0 {
                    &&& n@.len() == m.len()
                    &&& forall|j: int| 0 <= j < m.len() && j != i ==> n@[j] == m[j]
                    &&& n@[i].0 == m[i].0
                    &&& if keys.len() == 1 {
                        is_string_value(n@[i].1, value)
                    } else {
                        sets_path(m[i].1, n@[i].1, rest, value)
                    }
                } else {
                    let j = m.len() as int;
                    &&& n@.len() == m.len() + 1
                    &&& forall|j: int| 0 <= j < m.len() ==> n@[j] == m[j]
                    &&& n@[j].0 matches YamlValue::String(k) && k@ == keys[0]
                    &&& if keys.len() == 1 {
                        is_string_value(n@[j].1, value)
                    } else {
                        sets_in_entries(Seq::empty(), n@[j].1, rest, value)
                    }
                }
            },
            _ => false,
        }
    }
}

/// `new` is `old` with the string `value` set at the key path `keys`.
pub open spec fn sets_path(old: YamlValue, new: YamlValue, keys: Seq<Seq<char>>, value: Seq<char>) -> bool
    decreases keys.len(), 1int,
{
    match old {
        YamlValue::Mapping(m) => sets_in_entries(m@, new, keys, value),
        _ => false,
    }
}

/// Facts about `key_index`.
pub proof fn lemma_key_index(m: Seq<(YamlValue, YamlValue)>, k: Seq<char>, from: int)
    requires
        0 <= from,
    ensures
        key_index(m, k, from) == -1 || (from <= key_index(m, k, from) < m.len() && has_string_key(
            m,
            key_index(m, k, from),
            k,
        )),
        forall|j: int|
            from <= j < m.len() && (key_index(m, k, from) == -1 || j < key_index(m, k, from))
                ==> !has_string_key(m, j, k),
    decreases m.len() - from,
{
    if from < m.len() && !has_string_key(m, from, k) {
        lemma_key_index(m, k, from + 1);
    }
}

/// Replacing an entry's value, keeping its key, keeps every key's position.
pub proof fn lemma_key_index_same_key(
    m: Seq<(YamlValue, YamlValue)>,
    i: int,
    e: (YamlValue, YamlValue),
    k: Seq<char>,
    from: int,
)
    requires
        0 <= i < m.len(),
        e.0 == m[i].0,
    ensures
        key_index(m.update(i, e), k, from) == key_index(m, k, from),
    decreases m.len() - from,
{
    if 0 <= from < m.len() {
        assert(m.update(i, e)[from].0 == m[from].0);
        lemma_key_index_same_key(m, i, e, k, from + 1);
    }
}

/// Appending an entry keeps the positions of the keys already present.
pub proof fn lemma_key_index_push(
    m: Seq<(YamlValue, YamlValue)>,
    e: (YamlValue, YamlValue),
    k: Seq<char>,
    from: int,
)
    requires
        0 <= from <= m.len(),
    ensures
        key_index(m.push(e), k, from) == if key_index(m, k, from) != -1 {
            key_index(m, k, from)
        } else if e.0 matches YamlValue::String(s) && s@ == k {
            m.len() as int
        } else {
            -1
        },
    decreases m.len() - from,
{
    if from < m.len() {
        assert(m.push(e)[from] == m[from]);
        lemma_key_index_push(m, e, k, from + 1);
    } else {
        assert(m.push(e)[from] == e);
        assert(key_index(m.push(e), k, from + 1) == -1);
    }
}

/// The node under any tags.
pub fn untag_ref(v: &YamlValue) -> (r: &YamlValue)
    ensures
        *r == untag(*v),
    decreases v,
{
    match v {
        YamlValue::Tagged(_, inner) => untag_ref(inner),
        _ => v,
    }
}

/// The position of the first entry of `m` whose key is the string `key`.
fn find_string_key(m: &Vec<(YamlValue, YamlValue)>, key: &str) -> (r: Option<usize>)
    ensures
        match r {
            Some(i) => i as int == key_index(m@, key@, 0),
            None => key_index(m@, key@, 0) == -1,
        },
{
    let mut i: usize = 0;
    while i < m.len()
        invariant
            i <= m@.len(),
            key_index(m@, key@, 0) == key_index(m@, key@, i as int),
        decreases m.len() - i,
    {
        let matched = match &m[i].0 {
            YamlValue::String(s) => crate::text::str_eq(s.as_str(), key),
            _ => false,
        };
        if matched {
            return Some(i);
        }
        i = i + 1;
    }
    None
}

/// `Value::get` with a string key.
pub fn yaml_value_get<'a>(v: &'a YamlValue, key: &str) -> (r: Option<&'a YamlValue>)
    ensures
        match r {
            Some(c) => yaml_get(*v, key@) == Some(*c),
            None => yaml_get(*v, key@) is None,
        },
{
    match untag_ref(v) {
        YamlValue::Mapping(m) => match find_string_key(m, key) {
            Some(i) => {
                proof {
                    lemma_key_index(m@, key@, 0);
                }
                Some(&m[i].1)
            },
            None => None,
        },
        _ => None,
    }
}

/// The kind of `v`, as error messages name it.
pub fn kind_name(v: &YamlValue) -> (r: &str)
    ensures
        r@ == yaml_type_name(*v),
{
    match v {
        YamlValue::Null => "null",
        YamlValue::Bool(_) => "bool",
        YamlValue::Number(_) => "number",
        YamlValue::String(_) => "string",
        YamlValue::Sequence(_) => "array",
        YamlValue::Mapping(_) => "object",
        YamlValue::Tagged(_, _) => "tagged",
    }
}

/// The pieces of `s` split at `c`, as `str::split` gives them.
pub fn split_char(s: &str, c: char) -> (r: Vec<String>)
    ensures
        r@.map_values(|x: String| x@) == split_from(s@, c, 0),
{
    let v = chars_of(s);
    let n = v.len();
    let mut r: Vec<String> = Vec::new();
    let mut p: usize = 0;
    let mut done = false;
    while !done
        invariant
            v@ == s@,
            n == v@.len(),
            p <= n,
            !done ==> split_from(s@, c, 0) == r@.map_values(|x: String| x@) + split_from(
                s@,
                c,
                p as int,
            ),
            done ==> split_from(s@, c, 0) == r@.map_values(|x: String| x@),
        decreases n + 1 - p, if done { 0int } else { 1int },
    {
        let j = find_char(&v, c, p);
        proof {
            lemma_next_char(v@, c, p as int);
        }
        let piece = substring(s, p, j);
        let ghost old_r = r@;
        r.push(piece);
        assert(r@.map_values(|x: String| x@) =~= old_r.map_values(|x: String| x@).push(piece@));
        if j < n {
            assert(split_from(s@, c, p as int) == seq![piece@] + split_from(s@, c, j + 1));
            assert(old_r.map_values(|x: String| x@) + (seq![piece@] + split_from(s@, c, j + 1))
                =~= r@.map_values(|x: String| x@) + split_from(s@, c, j + 1));
            p = j + 1;
        } else {
            assert(split_from(s@, c, p as int) =~= seq![piece@]);
            assert(old_r.map_values(|x: String| x@) + seq![piece@] =~= r@.map_values(
                |x: String| x@,
            ));
            done = true;
        }
    }
    r
}

/// Extracts the TOML text at the dotted key path `key_path` of a values document.
pub fn extract_toml_from_value(yaml: &YamlValue, key_path: &str) -> (r: Result<String, Error>)
    ensures
        match (spec_extract(*yaml, key_path@), r) {
            (Ok(s), Ok(t)) => t@ == s,
            (Err(d), Err(Error::Config(m))) => m@ == d,
            _ => false,
        },
{
    let keys = split_char(key_path, '.');
    let ghost ks = path_keys(key_path@);
    let mut current: &YamlValue = yaml;
    let mut i: usize = 0;
    assert(ks.skip(0) =~= ks);
    while i < keys.len()
        invariant
            i <= keys@.len(),
            keys@.map_values(|x: String| x@) == ks,
            ks == path_keys(key_path@),
            lookup_path(*yaml, ks) == lookup_path(*current, ks.skip(i as int)),
        decreases keys.len() - i,
    {
        let key = &keys[i];
        assert(ks.skip(i as int)[0] == key@);
        assert(ks.skip(i as int).drop_first() =~= ks.skip(i + 1));
        match yaml_value_get(current, key.as_str()) {
            Some(c) => {
                current = c;
            },
            None => {
                let detail = concat3("key '", key.as_str(), "' not found in YAML (path: ");
                let mut msg = detail;
                msg.append(key_path);
                msg.append(")");
                assert(msg@ =~= "key '"@ + key@ + "' not found in YAML (path: "@ + key_path@ + ")"@);
                assert(lookup_path(*current, ks.skip(i as int)) == Err::<YamlValue, Seq<char>>(
                    key@,
                ));
                return Err(Error::Config(msg));
            },
        }
        i = i + 1;
    }
    assert(ks.skip(i as int) =~= Seq::<Seq<char>>::empty());
    match untag_ref(current) {
        YamlValue::String(s) => Ok(s.clone()),
        _ => {
            let mut msg = concat3("value at '", key_path, "' is not a string (found \"");
            msg.append(kind_name(current));
            msg.append("\")");
            Err(Error::Config(msg))
        },
    }
}

/// Replacing the value of the entry at `i`, which holds the string key
/// `key`, changes what `key` gives and nothing else.
pub proof fn lemma_mapping_get_update(
    m: Seq<(YamlValue, YamlValue)>,
    i: int,
    e: (YamlValue, YamlValue),
    key: Seq<char>,
    k: Seq<char>,
)
    requires
        0 <= i < m.len(),
        key_index(m, key, 0) == i,
        e.0 == m[i].0,
    ensures
        k == key ==> mapping_get(m.update(i, e), k) == Some(e.1),
        k != key ==> mapping_get(m.update(i, e), k) == mapping_get(m, k),
{
    lemma_key_index(m, key, 0);
    lemma_key_index(m, k, 0);
    lemma_key_index_same_key(m, i, e, k, 0);
}

/// Appending an entry under the string key `key`, which `m` lacks, makes
/// `key` give its value and changes nothing else.
pub proof fn lemma_mapping_get_push(
    m: Seq<(YamlValue, YamlValue)>,
    e: (YamlValue, YamlValue),
    key: Seq<char>,
    k: Seq<char>,
)
    requires
        key_index(m, key, 0) == -1,
        e.0 matches YamlValue::String(s) && s@ == key,
    ensures
        k == key ==> mapping_get(m.push(e), k) == Some(e.1),
        k != key ==> mapping_get(m.push(e), k) == mapping_get(m, k),
{
    lemma_key_index(m, k, 0);
    lemma_key_index_push(m, e, k, 0);
    if key_index(m, k, 0) != -1 {
        assert(m.push(e)[key_index(m, k, 0)] == m[key_index(m, k, 0)]);
    }
}

/// Whether the string value can be set at `keys[idx..]` below `yaml`, and
/// if not, the configuration error that says why.
fn check_set_path(yaml: &YamlValue, keys: &Vec<String>, idx: usize) -> (r: Result<(), Error>)
    requires
        idx <= keys@.len(),
    ensures
        ({
            let ks = keys@.map_values(|x: String| x@).skip(idx as int);
            &&& r is Ok <==> set_path_ok(*yaml, ks)
            &&& r matches Err(e) ==> (e matches Error::Config(m) && m@ == set_path_error(
                *yaml,
                ks,
            ))
        }),
    decreases keys@.len() - idx,
{
    let ghost ks = keys@.map_values(|x: String| x@).skip(idx as int);
    if idx >= keys.len() {
        return Err(Error::Config(owned("empty key path")));
    }
    assert(ks[0] == keys@[idx as int]@);
    assert(ks.drop_first() =~= keys@.map_values(|x: String| x@).skip(idx + 1));
    let key = &keys[idx];
    let last = idx + 1 == keys.len();
    match yaml {
        YamlValue::Mapping(map) => {
            if last {
                Ok(())
            } else {
                let found = find_string_key(map, key.as_str());
                proof {
                    lemma_key_index(map@, key@, 0);
                }
                match found {
                    Some(i) => check_set_path(&map[i].1, keys, idx + 1),
                    None => Ok(()),
                }
            }
        },
        _ => {
            if last {
                Err(Error::Config(concat3("cannot set key '", key.as_str(), "' on non-mapping")))
            } else {
                Err(
                    Error::Config(
                        concat3("cannot traverse key '", key.as_str(), "' on non-mapping"),
                    ),
                )
            }
        },
    }
}

/// Sets the string `value` at `keys[idx..]` below `yaml`, creating empty
/// mappings for missing keys.
fn set_nested_value(yaml: &mut YamlValue, keys: &Vec<String>, idx: usize, value: &str) -> (r:
    Result<(), Error>)
    requires
        idx <= keys@.len(),
    ensures
        ({
            let ks = keys@.map_values(|x: String| x@).skip(idx as int);
            &&& r is Ok <==> set_path_ok(*old(yaml), ks)
            &&& r matches Err(e) ==> (e matches Error::Config(m) && m@ == set_path_error(
                *old(yaml),
                ks,
            ))
            &&& r is Ok ==> (lookup_path(*final(yaml), ks) matches Ok(c) && c matches YamlValue::String(s)
                && s@ == value@)
            &&& r is Ok ==> forall|k: Seq<char>|
                k != ks[0] ==> #[trigger] yaml_get(*final(yaml), k) == yaml_get(*old(yaml), k)
            &&& r is Ok ==> sets_path(*old(yaml), *final(yaml), ks, value@)
            &&& r is Err ==> *final(yaml) == *old(yaml)
        }),
    decreases keys@.len() - idx,
{
    let ghost ks = keys@.map_values(|x: String| x@).skip(idx as int);
    let ghost old_yaml = *yaml;
    let checked = check_set_path(yaml, keys, idx);
    if checked.is_err() {
        return checked;
    }
    if idx >= keys.len() {
        return Err(Error::Config(owned("empty key path")));
    }
    assert(ks[0] == keys@[idx as int]@);
    assert(ks.drop_first() =~= keys@.map_values(|x: String| x@).skip(idx + 1));
    let key = &keys[idx];
    let last = idx + 1 == keys.len();
    let mut node = YamlValue::Null;
    std::mem::swap(&mut node, yaml);
    match node {
        YamlValue::Mapping(mut map) => {
            let ghost old_map = map@;
            let found = find_string_key(&map, key.as_str());
            proof {
                lemma_key_index(old_map, key@, 0);
            }
            let res = if last {
                let new_value = YamlValue::String(owned(value));
                match found {
                    Some(i) => {
                        let (k, _old_v) = map.remove(i);
                        let ghost e = (k, new_value);
                        map.insert(i, (k, new_value));
                        assert(map@ =~= old_map.update(i as int, e));
                        proof {
                            assert forall|k2: Seq<char>|
                                #![trigger mapping_get(map@, k2)]
                                (k2 == key@ ==> mapping_get(map@, k2) == Some(e.1)) && (k2
                                    != key@ ==> mapping_get(map@, k2) == mapping_get(
                                    old_map,
                                    k2,
                                )) by {
                                lemma_mapping_get_update(old_map, i as int, e, key@, k2);
                            }
                        }
                    },
                    None => {
                        let k = YamlValue::String(key.clone());
                        let ghost e = (k, new_value);
                        map.push((k, new_value));
                        proof {
                            assert forall|k2: Seq<char>|
                                #![trigger mapping_get(map@, k2)]
                                (k2 == key@ ==> mapping_get(map@, k2) == Some(e.1)) && (k2
                                    != key@ ==> mapping_get(map@, k2) == mapping_get(
                                    old_map,
                                    k2,
                                )) by {
                                lemma_mapping_get_push(old_map, e, key@, k2);
                            }
                        }
                    },
                }
                Ok(())
            } else {
                match found {
                    Some(i) => {
                        let (k, mut child) = map.remove(i);
                        assert(old_map[i as int] == (k, child));
                        let res = set_nested_value(&mut child, keys, idx + 1, value);
                        let ghost e = (k, child);
                        map.insert(i, (k, child));
                        assert(map@ =~= old_map.update(i as int, e));
                        proof {
                            assert forall|k2: Seq<char>|
                                #![trigger mapping_get(map@, k2)]
                                (k2 == key@ ==> mapping_get(map@, k2) == Some(e.1)) && (k2
                                    != key@ ==> mapping_get(map@, k2) == mapping_get(
                                    old_map,
                                    k2,
                                )) by {
                                lemma_mapping_get_update(old_map, i as int, e, key@, k2);
                            }
                        }
                        res
                    },
                    None => {
                        let mut child = YamlValue::Mapping(Vec::new());
                        let ghost empty_child = child;
                        assert(key_index(Seq::<(YamlValue, YamlValue)>::empty(), ks[1], 0) == -1);
                        assert(set_path_ok(empty_child, ks.drop_first()));
                        let res = set_nested_value(&mut child, keys, idx + 1, value);
                        let k = YamlValue::String(key.clone());
                        let ghost e = (k, child);
                        map.push((k, child));
                        proof {
                            assert forall|k2: Seq<char>|
                                #![trigger mapping_get(map@, k2)]
                                (k2 == key@ ==> mapping_get(map@, k2) == Some(e.1)) && (k2
                                    != key@ ==> mapping_get(map@, k2) == mapping_get(
                                    old_map,
                                    k2,
                                )) by {
                                lemma_mapping_get_push(old_map, e, key@, k2);
                            }
                        }
                        res
                    },
                }
            };
            *yaml = YamlValue::Mapping(map);
            proof {
                let m2 = map@;
                assert(yaml_get(*yaml, key@) == mapping_get(m2, key@));
                assert forall|k2: Seq<char>| k2 != ks[0] implies #[trigger] yaml_get(*yaml, k2)
                    == yaml_get(old_yaml, k2) by {
                    assert(mapping_get(m2, k2) == mapping_get(old_map, k2));
                }
                if res is Ok {
                    let c = mapping_get(m2, key@)->0;
                    assert(lookup_path(*yaml, ks) == lookup_path(c, ks.drop_first()));
                    if last {
                        assert(ks.drop_first().len() == 0);
                        assert(lookup_path(c, ks.drop_first()) == Ok::<YamlValue, Seq<char>>(c));
                    }
                }
            }
            res
        },
        other => {
            *yaml = other;
            if last {
                Err(Error::Config(concat3("cannot set key '", key.as_str(), "' on non-mapping")))
            } else {
                Err(
                    Error::Config(
                        concat3("cannot traverse key '", key.as_str(), "' on non-mapping"),
                    ),
                )
            }
        },
    }
}

/// Injects TOML text at the dotted key path `key_path` of a values document,
/// keeping the rest of the document.
pub fn inject_toml_into_value(yaml: &mut YamlValue, key_path: &str, toml_content: &str) -> (r:
    Result<(), Error>)
    ensures
        ({
            let ks = path_keys(key_path@);
            &&& r is Ok <==> set_path_ok(*old(yaml), ks)
            &&& r matches Err(e) ==> (e matches Error::Config(m) && m@ == set_path_error(
                *old(yaml),
                ks,
            ))
            &&& r is Ok ==> sets_path(*old(yaml), *final(yaml), ks, toml_content@)
            &&& r is Err ==> *final(yaml) == *old(yaml)
        }),
{
    let keys = split_char(key_path, '.');
    assert(keys@.map_values(|x: String| x@).skip(0) =~= keys@.map_values(|x: String| x@));
    set_nested_value(yaml, &keys, 0, toml_content)
}

/// Below a mapping whose entries `m` got `value` set at `keys`, the key
/// path leads to that string.
proof fn lemma_sets_in_entries_lookup(
    m: Seq<(YamlValue, YamlValue)>,
    new: YamlValue,
    keys: Seq<Seq<char>>,
    value: Seq<char>,
)
    requires
        sets_in_entries(m, new, keys, value),
    ensures
        lookup_path(new, keys) matches Ok(c) && is_string_value(c, value),
    decreases keys.len(),
{
    let n = new->Mapping_0@;
    let k = keys[0];
    let rest = keys.drop_first();
    let i = key_index(m, k, 0);
    lemma_key_index(m, k, 0);
    let j = if i >= 0 {
        assert(n =~= m.update(i, n[i]));
        lemma_key_index_same_key(m, i, n[i], k, 0);
        i
    } else {
        assert(n =~= m.push(n[m.len() as int]));
        lemma_key_index_push(m, n[m.len() as int], k, 0);
        m.len() as int
    };
    assert(yaml_get(new, k) == Some(n[j].1));
    assert(lookup_path(new, keys) == lookup_path(n[j].1, rest));
    if keys.len() == 1 {
        assert(lookup_path(n[j].1, rest) == Ok::<YamlValue, Seq<char>>(n[j].1));
    } else if i >= 0 {
        assert(sets_path(m[i].1, n[j].1, rest, value));
        assert(m[i].1 is Mapping);
        lemma_sets_in_entries_lookup(m[i].1->Mapping_0@, n[j].1, rest, value);
    } else {
        lemma_sets_in_entries_lookup(Seq::empty(), n[j].1, rest, value);
    }
}

/// Injecting a config and then extracting it at the same key path gives
/// back the injected text.
pub proof fn law_extract_after_inject(
    before: YamlValue,
    after: YamlValue,
    key_path: Seq<char>,
    toml_content: Seq<char>,
)
    requires
        sets_path(before, after, path_keys(key_path), toml_content),
    ensures
        spec_extract(after, key_path) == Ok::<Seq<char>, Seq<char>>(toml_content),
{
    lemma_sets_in_entries_lookup(before->Mapping_0@, after, path_keys(key_path), toml_content);
}

/// Injecting a config leaves every top-level key but the first key of the
/// path as it was.
pub proof fn law_inject_keeps_other_keys(
    before: YamlValue,
    after: YamlValue,
    key_path: Seq<char>,
    toml_content: Seq<char>,
    k: Seq<char>,
)
    requires
        sets_path(before, after, path_keys(key_path), toml_content),
        k != path_keys(key_path)[0],
    ensures
        yaml_get(after, k) == yaml_get(before, k),
{
    let ks = path_keys(key_path);
    let m = before->Mapping_0@;
    let n = after->Mapping_0@;
    let i = key_index(m, ks[0], 0);
    lemma_key_index(m, ks[0], 0);
    if i >= 0 {
        assert(n =~= m.update(i, n[i]));
        lemma_mapping_get_update(m, i, n[i], ks[0], k);
    } else {
        assert(n =~= m.push(n[m.len() as int]));
        lemma_mapping_get_push(m, n[m.len() as int], ks[0], k);
    }
}


/// Every tag in `v` has a non-empty name.
pub open spec fn tags_ok(v: YamlValue) -> bool
    decreases v,
{
    match v {
        YamlValue::Tagged(t, inner) => t@.len() > 0 && tags_ok(*inner),
        YamlValue::Sequence(items) => forall|i: int|
            0 <= i < items@.len() ==> tags_ok(#[trigger] items@[i]),
        YamlValue::Mapping(m) => forall|i: int|
            0 <= i < m@.len() ==> tags_ok(#[trigger] m@[i].0) && tags_ok(m@[i].1),
        _ => true,
    }
}

/// Setting a string along a key path below mapping entries whose tags are
/// all named gives a value whose tags are all named.
proof fn lemma_entries_keep_tags(
    m: Seq<(YamlValue, YamlValue)>,
    new: YamlValue,
    keys: Seq<Seq<char>>,
    value: Seq<char>,
)
    requires
        sets_in_entries(m, new, keys, value),
        forall|j: int| 0 <= j < m.len() ==> tags_ok(#[trigger] m[j].0) && tags_ok(m[j].1),
    ensures
        tags_ok(new),
    decreases keys.len(),
{
    let n = new->Mapping_0@;
    let i = key_index(m, keys[0], 0);
    let rest = keys.drop_first();
    lemma_key_index(m, keys[0], 0);
    if i >= 0 {
        if keys.len() > 1 {
            assert(tags_ok(m[i].1));
            assert(sets_path(m[i].1, n[i].1, rest, value));
            let mm = m[i].1->Mapping_0@;
            assert(sets_in_entries(mm, n[i].1, rest, value));
            assert forall|j: int| 0 <= j < mm.len() implies tags_ok(#[trigger] mm[j].0) && tags_ok(
                mm[j].1,
            ) by {
                reveal_with_fuel(tags_ok, 2);
            }
            lemma_entries_keep_tags(mm, n[i].1, rest, value);
        }
        assert forall|j: int| 0 <= j < n.len() implies tags_ok(#[trigger] n[j].0) && tags_ok(
            n[j].1,
        ) by {
            if j != i {
                assert(n[j] == m[j]);
            }
        }
    } else {
        let l = m.len() as int;
        if keys.len() > 1 {
            lemma_entries_keep_tags(Seq::empty(), n[l].1, rest, value);
        }
        assert forall|j: int| 0 <= j < n.len() implies tags_ok(#[trigger] n[j].0) && tags_ok(
            n[j].1,
        ) by {
            if j < l {
                assert(n[j] == m[j]);
            }
        }
    }
}

/// What `serde_yaml::from_str::<serde_yaml::Value>` gives for `text`: the
/// document, or the text of the error it reports.
pub uninterp spec fn yaml_parse(text: Seq<char>) -> Result<YamlValue, Seq<char>>;

/// What `serde_yaml::to_string` gives for the document `v`: the YAML text,
/// or the text of the error it reports.
pub uninterp spec fn yaml_render(v: YamlValue) -> Result<Seq<char>, Seq<char>>;

#[verifier::external_type_specification]
#[verifier::external_body]
pub struct ExSerdeYamlValue(Value);

#[verifier::external_type_specification]
#[verifier::external_body]
pub struct ExSerdeYamlError(YamlError);

/// The library's node for a `serde_yaml::Value`, one variant for one:
/// numbers and tags are kept as the text that `Display` gives them.
#[verifier::external_body]
fn node_of(v: Value) -> YamlValue {
    match v {
        Value::Null => YamlValue::Null,
        Value::Bool(b) => YamlValue::Bool(b),
        Value::Number(n) => YamlValue::Number(n.to_string()),
        Value::String(s) => YamlValue::String(s),
        Value::Sequence(xs) => YamlValue::Sequence(xs.into_iter().map(node_of).collect()),
        Value::Mapping(m) => YamlValue::Mapping(m.into_iter().map(|(k, v)| (node_of(k), node_of(v))).collect()),
        Value::Tagged(t) => YamlValue::Tagged(t.tag.to_string(), Box::new(node_of(t.value))),
    }
}

/// The `serde_yaml::Value` for a library node, one variant for one; a
/// number whose text `serde_yaml::Number` does not parse gives that error.
/// `serde_yaml::Tag::new` panics on an empty tag name, hence the requirement.
#[verifier::external_body]
fn value_of(v: &YamlValue) -> Result<Value, YamlError>
    requires
        tags_ok(*v),
{
    Ok(match v {
        YamlValue::Null => Value::Null,
        YamlValue::Bool(b) => Value::Bool(*b),
        YamlValue::Number(t) => Value::Number(t.parse()?),
        YamlValue::String(s) => Value::String(s.clone()),
        YamlValue::Sequence(xs) => Value::Sequence(xs.iter().map(value_of).collect::<Result<_, _>>()?),
        YamlValue::Mapping(m) => Value::Mapping(m.iter().map(|(k, v)| Ok((value_of(k)?, value_of(v)?))).collect::<Result<_, YamlError>>()?),
        YamlValue::Tagged(t, x) => Value::Tagged(Box::new(TaggedValue { tag: Tag::new(t), value: value_of(x)? })),
    })
}

/// `serde_yaml::from_str::<serde_yaml::Value>`: parses a YAML document.
/// Which texts parse, and the wording of the error, are what serde_yaml
/// decides; a parsed tag's text starts with `!`, so no tag name is empty.
#[verifier::external_body]
pub(crate) fn parse_yaml(text: &str) -> (r: Result<YamlValue, String>)
    ensures
        match r {
            Ok(v) => yaml_parse(text@) == Ok::<YamlValue, Seq<char>>(v) && tags_ok(v),
            Err(m) => yaml_parse(text@) == Err::<YamlValue, Seq<char>>(m@),
        },
{
    match serde_yaml::from_str::<serde_yaml::Value>(text) {
        Ok(v) => Ok(node_of(v)),
        Err(e) => Err(e.to_string()),
    }
}

/// `serde_yaml::to_string`: writes a YAML document.  `serde_yaml::Tag::new`
/// panics on an empty tag name, hence the requirement.
#[verifier::external_body]
pub(crate) fn render_yaml(v: &YamlValue) -> (r: Result<String, String>)
    requires
        tags_ok(*v),
    ensures
        match r {
            Ok(t) => yaml_render(*v) == Ok::<Seq<char>, Seq<char>>(t@),
            Err(m) => yaml_render(*v) == Err::<Seq<char>, Seq<char>>(m@),
        },
{
    match value_of(v) {
        Ok(value) => serde_yaml::to_string(&value).map_err(|e| e.to_string()),
        Err(e) => Err(e.to_string()),
    }
}

/// Extracts TOML content from a YAML values file at the given dotted key path.
pub fn extract_toml_from_yaml(yaml_str: &str, key_path: &str) -> (r: Result<String, Error>)
    ensures
        match yaml_parse(yaml_str@) {
            Err(m) => r matches Err(Error::Config(e)) && e@ == "failed to parse YAML: "@ + m,
            Ok(y) => match (spec_extract(y, key_path@), r) {
                (Ok(s), Ok(t)) => t@ == s,
                (Err(d), Err(Error::Config(e))) => e@ == d,
                _ => false,
            },
        },
{
    match parse_yaml(yaml_str) {
        Err(m) => Err(Error::Config(concat2("failed to parse YAML: ", m.as_str()))),
        Ok(y) => extract_toml_from_value(&y, key_path),
    }
}

/// Injects TOML content back into a YAML values file at the given dotted
/// key path, keeping the rest of the document.
pub fn inject_toml_into_yaml(yaml_str: &str, key_path: &str, toml_content: &str) -> (r: Result<
    String,
    Error,
>)
    ensures
        match yaml_parse(yaml_str@) {
            Err(m) => r matches Err(Error::Config(e)) && e@ == "failed to parse YAML: "@ + m,
            Ok(y) => {
                let ks = path_keys(key_path@);
                if !set_path_ok(y, ks) {
                    r matches Err(Error::Config(e)) && e@ == set_path_error(y, ks)
                } else {
                    exists|y2: YamlValue|
                        #[trigger] sets_path(y, y2, ks, toml_content@) && match (yaml_render(y2), r) {
                            (Ok(t), Ok(s)) => s@ == t,
                            (Err(m), Err(Error::Config(e))) => e@ == "failed to serialize YAML: "@ + m,
                            _ => false,
                        }
                }
            },
        },
{
    match parse_yaml(yaml_str) {
        Err(m) => Err(Error::Config(concat2("failed to parse YAML: ", m.as_str()))),
        Ok(y) => {
            let ghost y0 = y;
            let mut y = y;
            match inject_toml_into_value(&mut y, key_path, toml_content) {
                Err(e) => Err(e),
                Ok(()) => {
                    proof {
                        lemma_entries_keep_tags(y0->Mapping_0@, y, path_keys(key_path@), toml_content@);
                    }
                    match render_yaml(&y) {
                        Ok(t) => Ok(t),
                        Err(m) => Err(Error::Config(concat2("failed to serialize YAML: ", m.as_str()))),
                    }
                }
            }
        },
    }
}

} // verus!
