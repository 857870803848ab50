//! The decoded event record: a tree-shaped value with the canonical
//! `Event.System.*` / `Event.EventData.*` layout, and the lookups and
//! renderings the pipeline needs from it.

use vstd::prelude::*;

use crate::strtext::dec_of;

verus! {

/// One decoded record value: a scalar leaf or a nested container.
pub enum RecordValue {
    Null,
    Flag(bool),
    Num(i64),
    Text(String),
    List(Vec<RecordValue>),
    Tree(Vec<(String, RecordValue)>),
}

impl RecordValue {
    /// A scalar carries its value directly; containers do not.
    pub open spec fn is_scalar(self) -> bool {
        match self {
            RecordValue::List(_) => false,
            RecordValue::Tree(_) => false,
            _ => true,
        }
    }
}

/// Decimal rendering of a signed number.
pub open spec fn int_text(n: int) -> Seq<char> {
    if n >= 0 {
        dec_of(n as nat)
    } else {
        seq!['-'] + dec_of((-n) as nat)
    }
}

/// The text of a scalar: strings stand as they are, numbers in decimal,
/// booleans and null by their usual words.
pub open spec fn scalar_text(v: RecordValue) -> Seq<char> {
    match v {
        RecordValue::Null => seq!['n', 'u', 'l', 'l'],
        RecordValue::Flag(b) => if b {
            seq!['t', 'r', 'u', 'e']
        } else {
            seq!['f', 'a', 'l', 's', 'e']
        },
        RecordValue::Num(n) => int_text(n as int),
        RecordValue::Text(s) => s@,
        _ => Seq::empty(),
    }
}

/// Escaping for text rendered inside a container: quote and backslash get a
/// backslash prefix.
pub open spec fn esc_char(c: char) -> Seq<char> {
    if c == '"' || c == '\\' {
        seq!['\\', c]
    } else {
        seq![c]
    }
}

pub open spec fn esc_text(s: Seq<char>) -> Seq<char>
    decreases s.len(),
{
    if s.len() == 0 {
        Seq::empty()
    } else {
        esc_text(s.drop_last()) + esc_char(s.last())
    }
}

/// Rendering of a whole value, for the stringified form of non-scalars:
/// containers in bracketed comma-joined form, text quoted and escaped.
pub open spec fn render_of(v: RecordValue) -> Seq<char>
    decreases v,
{
    match v {
        RecordValue::Text(s) => seq!['"'] + esc_text(s@) + seq!['"'],
        RecordValue::List(es) => seq!['['] + render_list(es@) + seq![']'],
        RecordValue::Tree(fs) => seq!['{'] + render_tree(fs@) + seq!['}'],
        _ => scalar_text(v),
    }
}

pub open spec fn render_list(es: Seq<RecordValue>) -> Seq<char>
    decreases es,
{
    if es.len() == 0 {
        Seq::empty()
    } else {
        let head = render_list(es.drop_last());
        let sep: Seq<char> = if es.len() == 1 {
            Seq::empty()
        } else {
            seq![',']
        };
        head + sep + render_of(es.last())
    }
}

pub open spec fn render_tree(fs: Seq<(String, RecordValue)>) -> Seq<char>
    decreases fs,
{
    if fs.len() == 0 {
        Seq::empty()
    } else {
        let head = render_tree(fs.drop_last());
        let sep: Seq<char> = if fs.len() == 1 {
            Seq::empty()
        } else {
            seq![',']
        };
        head + sep + seq!['"'] + esc_text(fs.last().0@) + seq!['"', ':'] + render_of(fs.last().1)
    }
}

/// The stored form of a field: its own text for a scalar, the rendered form
/// for a container.
pub open spec fn flat_text(v: RecordValue) -> Seq<char> {
    if v.is_scalar() {
        scalar_text(v)
    } else {
        render_of(v)
    }
}

/// First match in a field list by name.
pub open spec fn tree_lookup(fs: Seq<(String, RecordValue)>, name: Seq<char>) -> Option<
    RecordValue,
>
    decreases fs.len(),
{
    if fs.len() == 0 {
        None
    } else if fs[0].0@ == name {
        Some(fs[0].1)
    } else {
        tree_lookup(fs.skip(1), name)
    }
}

/// Renders a signed number in decimal.
pub fn i64_to_string(n: i64) -> (r: String)
    ensures
        r@ == int_text(n as int),
{
    if n >= 0 {
        crate::strtext::u64_to_string(n as u64)
    } else {
        let mag: u64 = ((-(n + 1)) as u64) + 1;
        proof {
            reveal_strlit("-");
        }
        let mut out: String = String::from_str("-");
        let digits: String = crate::strtext::u64_to_string(mag);
        out.append(digits.as_str());
        assert(out@ =~= int_text(n as int));
        out
    }
}

/// The text of a scalar value; containers give the empty string.
pub fn scalar_string(v: &RecordValue) -> (r: String)
    ensures
        v.is_scalar() ==> r@ == scalar_text(*v),
        !v.is_scalar() ==> r@ == Seq::<char>::empty(),
{
    match v {
        RecordValue::Null => {
            proof {
                reveal_strlit("null");
            }
            let s: String = String::from_str("null");
            assert(s@ =~= scalar_text(*v));
            s
        },
        RecordValue::Flag(b) => {
            proof {
                reveal_strlit("true");
                reveal_strlit("false");
            }
            let s: String = if *b {
                String::from_str("true")
            } else {
                String::from_str("false")
            };
            assert(s@ =~= scalar_text(*v));
            s
        },
        RecordValue::Num(n) => i64_to_string(*n),
        RecordValue::Text(s) => s.clone(),
        _ => String::new(),
    }
}

/// Escapes text for rendering inside a container.
#[verifier::loop_isolation(false)]
pub fn esc_string(s: &String) -> (r: String)
    ensures
        r@ == esc_text(s@),
{
    let len: usize = s.as_str().unicode_len();
    let mut out: String = String::new();
    let mut i: usize = 0;
    proof {
        assert(s@.take(0) =~= Seq::<char>::empty());
    }
    while i < len
        invariant
            i <= len,
            out@ == esc_text(s@.take(i as int)),
        decreases len - i,
    {
        let c: char = s.as_str().get_char(i);
        if c == '"' {
            proof {
                reveal_strlit("\\\"");
            }
            out.append("\\\"");
        } else if c == '\\' {
            proof {
                reveal_strlit("\\\\");
            }
            out.append("\\\\");
        } else {
            out.append(s.as_str().substring_char(i, i + 1));
        }
        proof {
            let t = s@.take(i + 1);
            assert(t.drop_last() =~= s@.take(i as int));
            assert(t.last() == s@[i as int]);
            assert(s@.subrange(i as int, i + 1) =~= seq![s@[i as int]]);
            assert(out@ =~= esc_text(s@.take(i + 1)));
        }
        i = i + 1;
    }
    proof {
        assert(s@.take(len as int) =~= s@);
    }
    out
}

/// Renders a value in its stringified container form.
#[verifier::loop_isolation(false)]
pub fn render_value(v: &RecordValue) -> (r: String)
    ensures
        r@ == render_of(*v),
    decreases *v,
{
    match v {
        RecordValue::Text(s) => {
            proof {
                reveal_strlit("\"");
            }
            let mut out: String = String::from_str("\"");
            let body: String = esc_string(s);
            out.append(body.as_str());
            out.append("\"");
            assert(out@ =~= render_of(*v));
            out
        },
        RecordValue::List(es) => {
            proof {
                reveal_strlit("[");
                reveal_strlit("]");
                reveal_strlit(",");
                assert(es@.take(0) =~= Seq::<RecordValue>::empty());
            }
            let mut body: String = String::new();
            let n: usize = es.len();
            let mut i: usize = 0;
            while i < n
                invariant
                    i <= n,
                    n == es@.len(),
                    body@ == render_list(es@.take(i as int)),
                decreases n - i,
            {
                if i > 0 {
                    body.append(",");
                }
                proof {
                    assert(decreases_to!(*v => *es));
                    assert(decreases_to!(*es => es@));
                    assert(decreases_to!(es@ => es@[i as int]));
                }
                let piece: String = render_value(&es[i]);
                body.append(piece.as_str());
                proof {
                    let t = es@.take(i + 1);
                    assert(t.drop_last() =~= es@.take(i as int));
                    assert(t.last() == es@[i as int]);
                    assert(body@ =~= render_list(es@.take(i + 1)));
                }
                i = i + 1;
            }
            proof {
                assert(es@.take(n as int) =~= es@);
            }
            let mut out: String = String::from_str("[");
            out.append(body.as_str());
            out.append("]");
            assert(out@ =~= render_of(*v));
            out
        },
        RecordValue::Tree(fs) => {
            proof {
                reveal_strlit("{");
                reveal_strlit("}");
                reveal_strlit(",");
                reveal_strlit("\"");
                reveal_strlit("\":");
                assert(fs@.take(0) =~= Seq::<(String, RecordValue)>::empty());
            }
            let mut body: String = String::new();
            let n: usize = fs.len();
            let mut i: usize = 0;
            while i < n
                invariant
                    i <= n,
                    n == fs@.len(),
                    body@ == render_tree(fs@.take(i as int)),
                decreases n - i,
            {
                if i > 0 {
                    body.append(",");
                }
                body.append("\"");
                let name: String = esc_string(&fs[i].0);
                body.append(name.as_str());
                body.append("\":");
                proof {
                    assert(decreases_to!(*v => *fs));
                    assert(decreases_to!(*fs => fs@));
                    assert(decreases_to!(fs@ => fs@[i as int]));
                    assert(decreases_to!(fs@[i as int] => fs@[i as int].1));
                }
                let piece: String = render_value(&fs[i].1);
                body.append(piece.as_str());
                proof {
                    let t = fs@.take(i + 1);
                    assert(t.drop_last() =~= fs@.take(i as int));
                    assert(t.last() == fs@[i as int]);
                    assert(body@ =~= render_tree(fs@.take(i + 1)));
                }
                i = i + 1;
            }
            proof {
                assert(fs@.take(n as int) =~= fs@);
            }
            let mut out: String = String::from_str("{");
            out.append(body.as_str());
            out.append("}");
            assert(out@ =~= render_of(*v));
            out
        },
        _ => scalar_string(v),
    }
}

/// The stored form of a field value.
pub fn flat_string(v: &RecordValue) -> (r: String)
    ensures
        r@ == flat_text(*v),
{
    match v {
        RecordValue::List(_) => render_value(v),
        RecordValue::Tree(_) => render_value(v),
        _ => scalar_string(v),
    }
}

/// Descent along a dotted path, one segment at a time, starting at `i`.
pub open spec fn path_lookup(v: RecordValue, path: Seq<Seq<char>>, i: int) -> Option<RecordValue>
    decreases path.len() - i,
{
    if i < 0 || i > path.len() {
        None
    } else if i == path.len() {
        Some(v)
    } else {
        match v {
            RecordValue::Tree(fs) => match tree_lookup(fs@, path[i]) {
                Some(child) => path_lookup(child, path, i + 1),
                None => None,
            },
            _ => None,
        }
    }
}

/// The views of a list of path segments.
pub open spec fn seg_views(path: Seq<String>) -> Seq<Seq<char>> {
    path.map_values(|s: String| s@)
}

/// Walks the record along `path` from segment `from` on.
#[verifier::loop_isolation(false)]
pub fn path_get<'a>(v: &'a RecordValue, path: &Vec<String>, from: usize) -> (r: Option<
    &'a RecordValue,
>)
    requires
        from <= path@.len(),
    ensures
        match r {
            Some(x) => path_lookup(*v, seg_views(path@), from as int) == Some(*x),
            None => path_lookup(*v, seg_views(path@), from as int) is None,
        },
    decreases path@.len() - from,
{
    if from == path.len() {
        return Some(v);
    }
    let seg: &String = &path[from];
    match v {
        RecordValue::Tree(fs) => {
            let n: usize = fs.len();
            let mut j: usize = 0;
            proof {
                assert(fs@.skip(0) =~= fs@);
            }
            while j < n
                invariant
                    j <= n,
                    n == fs@.len(),
                    tree_lookup(fs@, seg@) == tree_lookup(fs@.skip(j as int), seg@),
                decreases n - j,
            {
                let entry: &(String, RecordValue) = &fs[j];
                proof {
                    assert(fs@.skip(j as int)[0] == fs@[j as int]);
                }
                if entry.0 == *seg {
                    proof {
                        assert(tree_lookup(fs@, seg@) == Some(fs@[j as int].1));
                    }
                    return path_get(&entry.1, path, from + 1);
                }
                proof {
                    assert(fs@.skip(j as int).skip(1) =~= fs@.skip(j + 1));
                }
                j = j + 1;
            }
            proof {
                assert(fs@.skip(n as int) =~= Seq::<(String, RecordValue)>::empty());
            }
            None
        },
        _ => None,
    }
}

/// Splitting of a dotted key into its segments, carried by the segment
/// gathered so far.
pub open spec fn split_rec(s: Seq<char>, cur: Seq<char>) -> Seq<Seq<char>>
    decreases s.len(),
{
    if s.len() == 0 {
        seq![cur]
    } else if s[0] == '.' {
        seq![cur] + split_rec(s.skip(1), Seq::empty())
    } else {
        split_rec(s.skip(1), cur.push(s[0]))
    }
}

/// The segments of a dotted key.
pub open spec fn split_dots(s: Seq<char>) -> Seq<Seq<char>> {
    split_rec(s, Seq::empty())
}

/// Splits a dotted key into its segments.
#[verifier::loop_isolation(false)]
pub fn split_key(s: &String) -> (r: Vec<String>)
    ensures
        seg_views(r@) == split_dots(s@),
{
    let len: usize = s.as_str().unicode_len();
    let mut out: Vec<String> = Vec::new();
    let mut cur: String = String::new();
    let mut i: usize = 0;
    proof {
        assert(s@.skip(0) =~= s@);
        assert(seg_views(out@) =~= Seq::<Seq<char>>::empty());
    }
    while i < len
        invariant
            i <= len,
            seg_views(out@) + split_rec(s@.skip(i as int), cur@) == split_dots(s@),
        decreases len - i,
    {
        let c: char = s.as_str().get_char(i);
        proof {
            assert(s@.skip(i as int)[0] == s@[i as int]);
            assert(s@.skip(i as int).skip(1) =~= s@.skip(i + 1));
        }
        if c == '.' {
            let ghost old_out = out@;
            let ghost old_cur = cur@;
            out.push(cur);
            cur = String::new();
            proof {
                assert(seg_views(out@) =~= seg_views(old_out).push(old_cur));
                assert(seg_views(old_out) + (seq![old_cur] + split_rec(s@.skip(i + 1), Seq::empty()))
                    =~= seg_views(out@) + split_rec(s@.skip(i + 1), cur@));
            }
        } else {
            let ghost old_cur = cur@;
            cur.append(s.as_str().substring_char(i, i + 1));
            proof {
                assert(s@.subrange(i as int, i + 1) =~= seq![s@[i as int]]);
                assert(cur@ =~= old_cur.push(s@[i as int]));
            }
        }
        i = i + 1;
    }
    proof {
        assert(s@.skip(len as int) =~= Seq::<char>::empty());
    }
    let ghost old_out = out@;
    let ghost last_cur = cur@;
    out.push(cur);
    proof {
        assert(seg_views(out@) =~= seg_views(old_out).push(last_cur));
        assert(seg_views(old_out) + seq![last_cur] =~= seg_views(out@));
    }
    out
}

/// The text a field value contributes: strings as they are, numbers in
/// decimal, anything else nothing.
pub open spec fn field_text(v: RecordValue) -> Option<Seq<char>> {
    match v {
        RecordValue::Text(s) => Some(s@),
        RecordValue::Num(n) => Some(int_text(n as int)),
        _ => None,
    }
}

/// The canonical location of the event identifier.
pub open spec fn event_id_sel() -> Seq<Seq<char>> {
    seq!["Event"@, "System"@, "EventID"@]
}

/// The canonical location of the record timestamp.
pub open spec fn time_sel() -> Seq<Seq<char>> {
    seq!["Event"@, "System"@, "TimeCreated_attributes"@, "SystemTime"@]
}

/// The canonical location of the target user name.
pub open spec fn target_user_sel() -> Seq<Seq<char>> {
    seq!["Event"@, "EventData"@, "TargetUserName"@]
}

/// The event identifier a record carries, as its canonical decimal or
/// verbatim string form.
pub open spec fn event_id_of(v: RecordValue) -> Option<Seq<char>> {
    match path_lookup(v, event_id_sel(), 0) {
        Some(x) => field_text(x),
        None => None,
    }
}

/// The timestamp string a record carries.
pub open spec fn time_of(v: RecordValue) -> Option<Seq<char>> {
    match path_lookup(v, time_sel(), 0) {
        Some(x) => field_text(x),
        None => None,
    }
}

/// The target user name a record carries.
pub open spec fn target_user_of(v: RecordValue) -> Option<Seq<char>> {
    match path_lookup(v, target_user_sel(), 0) {
        Some(x) => field_text(x),
        None => None,
    }
}

fn field_string(v: &RecordValue) -> (r: Option<String>)
    ensures
        match r {
            Some(s) => field_text(*v) == Some(s@),
            None => field_text(*v) is None,
        },
{
    match v {
        RecordValue::Text(s) => Some(s.clone()),
        RecordValue::Num(n) => Some(i64_to_string(*n)),
        _ => None,
    }
}

/// Extracts the event identifier of a record.
pub fn event_id_string(v: &RecordValue) -> (r: Option<String>)
    ensures
        match r {
            Some(s) => event_id_of(*v) == Some(s@),
            None => event_id_of(*v) is None,
        },
{
    let mut path: Vec<String> = Vec::new();
    path.push(String::from_str("Event"));
    path.push(String::from_str("System"));
    path.push(String::from_str("EventID"));
    proof {
        assert(seg_views(path@) =~= event_id_sel());
    }
    match path_get(v, &path, 0) {
        Some(x) => field_string(x),
        None => None,
    }
}

/// Extracts the timestamp string of a record.
pub fn time_string(v: &RecordValue) -> (r: Option<String>)
    ensures
        match r {
            Some(s) => time_of(*v) == Some(s@),
            None => time_of(*v) is None,
        },
{
    let mut path: Vec<String> = Vec::new();
    path.push(String::from_str("Event"));
    path.push(String::from_str("System"));
    path.push(String::from_str("TimeCreated_attributes"));
    path.push(String::from_str("SystemTime"));
    proof {
        assert(seg_views(path@) =~= time_sel());
    }
    match path_get(v, &path, 0) {
        Some(x) => field_string(x),
        None => None,
    }
}

/// Extracts the target user name of a record.
pub fn target_user_string(v: &RecordValue) -> (r: Option<String>)
    ensures
        match r {
            Some(s) => target_user_of(*v) == Some(s@),
            None => target_user_of(*v) is None,
        },
{
    let mut path: Vec<String> = Vec::new();
    path.push(String::from_str("Event"));
    path.push(String::from_str("EventData"));
    path.push(String::from_str("TargetUserName"));
    proof {
        assert(seg_views(path@) =~= target_user_sel());
    }
    match path_get(v, &path, 0) {
        Some(x) => field_string(x),
        None => None,
    }
}

} // verus!
