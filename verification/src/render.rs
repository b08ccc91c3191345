//! Rendering outputs into text lines, with optional ANSI styling.
use vstd::prelude::*;

use crate::json::{obj_get, JVal, JsonValue};
use crate::parser::{is_ws, ws_len};
use crate::record::{rank_of_text, LogLine, Severity};
use crate::textutil::{chars_to_string, to_chars, upper_seq};

verus! {

broadcast use vstd::std_specs::vec::group_vec_axioms;

/// `n` spaces.
pub open spec fn spaces(n: nat) -> Seq<char> {
    Seq::new(n, |i: int| ' ')
}

/// Append `n` spaces.
fn push_spaces(out: &mut Vec<char>, n: usize)
    ensures
        final(out)@ == old(out)@ + spaces(n as nat),
{
    let mut i: usize = 0;
    while i < n
        invariant
            i <= n,
            out@ == old(out)@ + spaces(i as nat),
        decreases n - i,
    {
        out.push(' ');
        proof {
            assert(out@ =~= old(out)@ + spaces((i + 1) as nat));
        }
        i += 1;
    }
}

/// The text left-justified to `width` characters with spaces.
pub open spec fn pad_right(s: Seq<char>, width: nat) -> Seq<char> {
    if s.len() >= width {
        s
    } else {
        s + spaces((width - s.len()) as nat)
    }
}

/// Append the text left-justified to `width`.
fn push_padded(out: &mut Vec<char>, s: &Vec<char>, width: usize)
    ensures
        final(out)@ == old(out)@ + pad_right(s@, width as nat),
{
    push_all(out, s);
    if s.len() < width {
        push_spaces(out, width - s.len());
        proof {
            assert(old(out)@ + s@ + spaces((width - s@.len()) as nat) =~= old(out)@ + pad_right(
                s@,
                width as nat,
            ));
        }
    }
}

/// Append all characters of `s`.
fn push_all(out: &mut Vec<char>, s: &Vec<char>)
    ensures
        final(out)@ == old(out)@ + s@,
{
    let mut i: usize = 0;
    while i < s.len()
        invariant
            i <= s@.len(),
            out@ == old(out)@ + s@.take(i as int),
        decreases s@.len() - i,
    {
        out.push(s[i]);
        proof {
            assert(out@ =~= old(out)@ + s@.take(i + 1));
        }
        i += 1;
    }
    proof {
        assert(old(out)@ + s@.take(s@.len() as int) =~= old(out)@ + s@);
    }
}

/// Append the characters of a literal.
fn push_lit(out: &mut Vec<char>, lit: &str)
    ensures
        final(out)@ == old(out)@ + lit@,
{
    let l = to_chars(lit);
    push_all(out, &l);
}

/// Decimal digits of a number, with no leading zeros.
pub open spec fn dec_digits(n: nat) -> Seq<char>
    decreases n,
{
    if n < 10 {
        seq![crate::textutil::char_of((n + 48) as u32)]
    } else {
        dec_digits(n / 10) + seq![crate::textutil::char_of((n % 10 + 48) as u32)]
    }
}

/// Append the decimal form of a byte.
fn push_dec_byte(out: &mut Vec<char>, n: u8)
    ensures
        final(out)@ == old(out)@ + dec_digits(n as nat),
{
    broadcast use vstd::utf8::char_u32_cast;

    if n < 10 {
        out.push(digit_char(n));
        proof {
            assert(out@ =~= old(out)@ + dec_digits(n as nat));
        }
    } else if n < 100 {
        out.push(digit_char(n / 10));
        out.push(digit_char(n % 10));
        proof {
            reveal_with_fuel(dec_digits, 3);
            assert(out@ =~= old(out)@ + dec_digits(n as nat));
        }
    } else {
        out.push(digit_char(n / 100));
        out.push(digit_char((n / 10) % 10));
        out.push(digit_char(n % 10));
        proof {
            reveal_with_fuel(dec_digits, 4);
            assert((n as nat) / 10 / 10 == (n as nat) / 100);
            assert(out@ =~= old(out)@ + dec_digits(n as nat));
        }
    }
}

/// The character of one decimal digit.
fn digit_char(d: u8) -> (c: char)
    requires
        d < 10,
    ensures
        c == crate::textutil::char_of((d + 48) as u32),
{
    broadcast use vstd::utf8::char_u32_cast;

    match char::from_u32(d as u32 + 48) {
        Some(c) => {
            proof {
                vstd::utf8::char_u32_cast(c, (d + 48) as u32);
            }
            c
        },
        None => ' ',
    }
}

/// Index of the first `.` in the text, or -1.
pub open spec fn dot_idx(s: Seq<char>) -> int
    decreases s.len(),
{
    if s.len() == 0 {
        -1
    } else if s[0] == '.' {
        0
    } else {
        let r = dot_idx(s.drop_first());
        if r == -1 {
            -1
        } else {
            r + 1
        }
    }
}

/// The parts of a dotted path, split on `.`.
pub open spec fn split_dots(s: Seq<char>) -> Seq<Seq<char>>
    decreases s.len(),
{
    let i = dot_idx(s);
    if i < 0 || i >= s.len() {
        seq![s]
    } else {
        seq![s.take(i)] + split_dots(s.skip(i + 1))
    }
}

/// The first dot sits within the text, and nothing before it is a dot.
proof fn lemma_dot_idx(s: Seq<char>)
    ensures
        -1 <= dot_idx(s) < s.len(),
        dot_idx(s) >= 0 ==> s[dot_idx(s)] == '.',
        forall|j: int| 0 <= j < dot_idx(s) ==> s[j] != '.',
        dot_idx(s) == -1 ==> forall|j: int| 0 <= j < s.len() ==> s[j] != '.',
    decreases s.len(),
{
    if s.len() > 0 && s[0] != '.' {
        lemma_dot_idx(s.drop_first());
        let t = s.drop_first();
        assert forall|j: int| 0 <= j < dot_idx(s) implies s[j] != '.' by {
            if j > 0 {
                assert(t[j - 1] != '.');
            }
        }
        if dot_idx(s) == -1 {
            assert forall|j: int| 0 <= j < s.len() implies s[j] != '.' by {
                if j > 0 {
                    assert(t[j - 1] != '.');
                }
            }
        }
    }
}

/// Split a dotted path on `.`, as `split_dots` describes.
fn split_dots_exec(s: &Vec<char>) -> (r: Vec<Vec<char>>)
    ensures
        r@.len() == split_dots(s@).len(),
        forall|i: int| 0 <= i < r@.len() ==> r@[i]@ == split_dots(s@)[i],
        r@.len() >= 1,
    decreases s@.len(),
{
    proof {
        lemma_dot_idx(s@);
    }
    let mut i: usize = 0;
    while i < s.len() && s[i] != '.'
        invariant
            i <= s@.len(),
            forall|j: int| 0 <= j < i ==> s@[j] != '.',
        decreases s@.len() - i,
    {
        i += 1;
    }
    if i >= s.len() {
        proof {
            assert(dot_idx(s@) == -1) by {
                lemma_dot_idx(s@);
                if dot_idx(s@) >= 0 {
                    assert(s@[dot_idx(s@)] == '.');
                }
            }
        }
        let mut r: Vec<Vec<char>> = Vec::new();
        r.push(crate::record::clone_chars(s));
        return r;
    }
    proof {
        assert(dot_idx(s@) == i) by {
            lemma_dot_idx(s@);
            if dot_idx(s@) > i {
                assert(s@[i as int] != '.');
            }
            if 0 <= dot_idx(s@) < i {
                assert(s@[dot_idx(s@)] == '.');
            }
            if dot_idx(s@) == -1 {
                assert(s@[i as int] != '.');
            }
        }
    }
    let head = crate::parser::copy_range(s, 0, i);
    let tail = crate::parser::copy_range(s, i + 1, s.len());
    proof {
        assert(tail@ =~= s@.skip(i + 1));
    }
    let mut rest = split_dots_exec(&tail);
    let ghost restm = rest@;
    rest.insert(0, head);
    proof {
        assert(split_dots(s@) == seq![s@.take(i as int)] + split_dots(s@.skip(i + 1)));
        assert(rest@.len() == split_dots(s@).len());
        assert forall|j: int| 0 <= j < rest@.len() implies rest@[j]@ == split_dots(s@)[j] by {
            if j > 0 {
                assert(rest@[j] == restm[j - 1]);
                assert(restm[j - 1]@ == split_dots(s@.skip(i + 1))[j - 1]);
            }
        }
    }
    rest
}

/// Descend through nested objects along the path parts; the last part may
/// name any value.
pub open spec fn lookup_path(fs: Seq<(Seq<char>, JVal)>, parts: Seq<Seq<char>>) -> Option<JVal>
    decreases parts.len(),
{
    if parts.len() == 0 {
        None
    } else if parts.len() == 1 {
        obj_get(fs, parts[0])
    } else {
        match obj_get(fs, parts[0]) {
            Some(JVal::Obj(m)) => lookup_path(m, parts.drop_first()),
            _ => None,
        }
    }
}

/// The textual form of a terminal value: numbers and strings keep their
/// text, booleans their names, arrays and objects a debug-style form, and
/// null renders as absent.
pub open spec fn terminal_text(v: JVal) -> Option<Seq<char>> {
    match v {
        JVal::Null => None,
        JVal::Num(t) => Some(t),
        JVal::Str(s) => Some(s),
        JVal::Bool(b) => Some(
            if b {
                "true"@
            } else {
                "false"@
            },
        ),
        JVal::Arr(items) => Some(debug_items(items, 0)),
        JVal::Obj(m) => Some(debug_fields(m, 0)),
    }
}

/// Debug-style form of one value, with its constructor name.
pub open spec fn debug_val(v: JVal) -> Seq<char>
    decreases v, 0int,
{
    match v {
        JVal::Null => "Null"@,
        JVal::Bool(b) => if b {
            "Bool(true)"@
        } else {
            "Bool(false)"@
        },
        JVal::Num(t) => "Num("@ + num_debug(t) + ")"@,
        JVal::Str(s) => "Str(\""@ + escape_debug(s) + "\")"@,
        JVal::Arr(items) => "Array("@ + debug_items(items, 0) + ")"@,
        JVal::Obj(m) => "Object("@ + debug_fields(m, 0) + ")"@,
    }
}

/// Debug-style form of an item list: brackets around comma-separated
/// values. The index walks the list.
pub open spec fn debug_items(items: Seq<JVal>, i: int) -> Seq<char>
    decreases items, items.len() - i,
{
    if i < 0 || i >= items.len() {
        if i == 0 {
            "[]"@
        } else {
            "]"@
        }
    } else {
        let head = if i == 0 {
            "["@ + debug_val(items[i])
        } else {
            ", "@ + debug_val(items[i])
        };
        head + debug_items(items, i + 1)
    }
}

/// Debug-style form of a field map: braces around comma-separated
/// `"key": value` pairs. The index walks the list.
pub open spec fn debug_fields(fs: Seq<(Seq<char>, JVal)>, i: int) -> Seq<char>
    decreases fs, fs.len() - i,
{
    if i < 0 || i >= fs.len() {
        if i == 0 {
            "{}"@
        } else {
            "}"@
        }
    } else {
        let entry = "\""@ + escape_debug(fs[i].0) + "\": "@ + debug_val(fs[i].1);
        let head = if i == 0 {
            "{"@ + entry
        } else {
            ", "@ + entry
        };
        head + debug_fields(fs, i + 1)
    }
}

/// A number token in debug style: an integer token gains `.0`.
pub open spec fn num_debug(t: Seq<char>) -> Seq<char> {
    if (exists|i: int| 0 <= i < t.len() && (t[i] == '.' || t[i] == 'e' || t[i] == 'E')) {
        t
    } else {
        t + ".0"@
    }
}

/// One character in debug style: quotes, backslashes and the common
/// control characters are escaped.
pub open spec fn escape_char(c: char) -> Seq<char> {
    if c == '"' {
        "\\\""@
    } else if c == '\\' {
        "\\\\"@
    } else if c == '\n' {
        "\\n"@
    } else if c == '\t' {
        "\\t"@
    } else if c == '\r' {
        "\\r"@
    } else {
        seq![c]
    }
}

/// A text in debug style, from position `i` on.
pub open spec fn escape_from(s: Seq<char>, i: int) -> Seq<char>
    decreases s.len() - i,
{
    if i < 0 || i >= s.len() {
        Seq::empty()
    } else {
        escape_char(s[i]) + escape_from(s, i + 1)
    }
}

/// A text in debug style, character by character.
pub open spec fn escape_debug(s: Seq<char>) -> Seq<char> {
    escape_from(s, 0)
}

/// Append the debug-style escape of the text.
fn push_escaped(out: &mut Vec<char>, s: &Vec<char>)
    ensures
        final(out)@ == old(out)@ + escape_debug(s@),
{
    let mut k: usize = 0;
    proof {
        assert(out@ + escape_from(s@, 0) =~= old(out)@ + escape_from(s@, 0));
    }
    while k < s.len()
        invariant
            k <= s@.len(),
            old(out)@ + escape_from(s@, 0) == out@ + escape_from(s@, k as int),
        decreases s@.len() - k,
    {
        let ghost pre = out@;
        let c = s[k];
        if c == '"' {
            push_lit(out, "\\\"");
        } else if c == '\\' {
            push_lit(out, "\\\\");
        } else if c == '\n' {
            push_lit(out, "\\n");
        } else if c == '\t' {
            push_lit(out, "\\t");
        } else if c == '\r' {
            push_lit(out, "\\r");
        } else {
            out.push(c);
        }
        proof {
            assert(out@ == pre + escape_char(s@[k as int]));
            assert(escape_from(s@, k as int) == escape_char(s@[k as int]) + escape_from(
                s@,
                k + 1,
            ));
            assert((pre + escape_char(s@[k as int])) + escape_from(s@, k + 1) =~= pre + (
            escape_char(s@[k as int]) + escape_from(s@, k + 1)));
        }
        k += 1;
    }
    proof {
        assert(escape_from(s@, s@.len() as int) =~= Seq::<char>::empty());
        assert(out@ + Seq::<char>::empty() =~= out@);
    }
}


/// Append the debug-style form of one value.
fn push_debug_val(out: &mut Vec<char>, v: &JsonValue)
    ensures
        final(out)@ == old(out)@ + debug_val(v.model()),
    decreases v,
{
    match v {
        JsonValue::Null => {
            push_lit(out, "Null");
        },
        JsonValue::Bool(b) => {
            if *b {
                push_lit(out, "Bool(true)");
            } else {
                push_lit(out, "Bool(false)");
            }
        },
        JsonValue::Num(t) => {
            push_lit(out, "Num(");
            push_num_debug(out, t);
            push_lit(out, ")");
            proof {
                assert(out@ =~= old(out)@ + debug_val(v.model()));
            }
        },
        JsonValue::Str(s) => {
            push_lit(out, "Str(\"");
            push_escaped(out, s);
            push_lit(out, "\")");
            proof {
                assert(out@ =~= old(out)@ + debug_val(v.model()));
            }
        },
        JsonValue::Array(items) => {
            push_lit(out, "Array(");
            push_debug_items(out, items);
            push_lit(out, ")");
            proof {
                assert(out@ =~= old(out)@ + debug_val(v.model()));
            }
        },
        JsonValue::Object(m) => {
            push_lit(out, "Object(");
            push_debug_fields(out, m);
            push_lit(out, ")");
            proof {
                assert(out@ =~= old(out)@ + debug_val(v.model()));
            }
        },
    }
}

/// Append the debug-style form of an item list.
fn push_debug_items(out: &mut Vec<char>, items: &Vec<JsonValue>)
    ensures
        final(out)@ == old(out)@ + debug_items(crate::json::items_model(*items), 0),
    decreases items,
{
    let ghost m = crate::json::items_model(*items);
    if items.len() == 0 {
        push_lit(out, "[]");
        return ;
    }
    let mut k: usize = 0;
    while k < items.len()
        invariant
            k <= m.len(),
            m == crate::json::items_model(*items),
            m.len() == items@.len() > 0,
            old(out)@ + debug_items(m, 0) == out@ + debug_items(m, k as int),
        decreases items@.len() - k,
    {
        let ghost pre = out@;
        if k == 0 {
            push_lit(out, "[");
        } else {
            push_lit(out, ", ");
        }
        push_debug_val(out, &items[k]);
        proof {
            let head = if k == 0 {
                "["@ + debug_val(m[k as int])
            } else {
                ", "@ + debug_val(m[k as int])
            };
            assert(out@ =~= pre + head);
            assert(debug_items(m, k as int) == head + debug_items(m, k + 1));
            assert((pre + head) + debug_items(m, k + 1) =~= pre + (head + debug_items(m, k + 1)));
        }
        k += 1;
    }
    push_lit(out, "]");
    proof {
        assert(debug_items(m, m.len() as int) == "]"@);
    }
}

/// Append the debug-style form of a field map.
fn push_debug_fields(out: &mut Vec<char>, fs: &Vec<(Vec<char>, JsonValue)>)
    ensures
        final(out)@ == old(out)@ + debug_fields(crate::json::fields_model(*fs), 0),
    decreases fs,
{
    let ghost m = crate::json::fields_model(*fs);
    if fs.len() == 0 {
        push_lit(out, "{}");
        return ;
    }
    let mut k: usize = 0;
    while k < fs.len()
        invariant
            k <= m.len(),
            m == crate::json::fields_model(*fs),
            m.len() == fs@.len() > 0,
            old(out)@ + debug_fields(m, 0) == out@ + debug_fields(m, k as int),
        decreases fs@.len() - k,
    {
        let ghost pre = out@;
        if k == 0 {
            push_lit(out, "{");
        } else {
            push_lit(out, ", ");
        }
        push_lit(out, "\"");
        push_escaped(out, &fs[k].0);
        push_lit(out, "\": ");
        push_debug_val(out, &fs[k].1);
        proof {
            let entry = "\""@ + escape_debug(m[k as int].0) + "\": "@ + debug_val(m[k as int].1);
            let head = if k == 0 {
                "{"@ + entry
            } else {
                ", "@ + entry
            };
            assert(out@ =~= pre + head);
            assert(debug_fields(m, k as int) == head + debug_fields(m, k + 1));
            assert((pre + head) + debug_fields(m, k + 1) =~= pre + (head + debug_fields(
                m,
                k + 1,
            )));
        }
        k += 1;
    }
    push_lit(out, "}");
    proof {
        assert(debug_fields(m, m.len() as int) == "}"@);
    }
}

/// Append a number token in debug style.
fn push_num_debug(out: &mut Vec<char>, t: &Vec<char>)
    ensures
        final(out)@ == old(out)@ + num_debug(t@),
{
    let mut k: usize = 0;
    let mut found = false;
    while k < t.len() && !found
        invariant
            k <= t@.len(),
            found ==> exists|i: int|
                0 <= i < t@.len() && (t@[i] == '.' || t@[i] == 'e' || t@[i] == 'E'),
            !found ==> forall|i: int|
                0 <= i < k ==> !(t@[i] == '.' || t@[i] == 'e' || t@[i] == 'E'),
        decreases t@.len() - k, (if found { 0int } else { 1int }),
    {
        let c = t[k];
        if c == '.' || c == 'e' || c == 'E' {
            found = true;
        } else {
            k += 1;
        }
    }
    push_all(out, t);
    if !found {
        push_lit(out, ".0");
        proof {
            assert(out@ =~= old(out)@ + num_debug(t@));
        }
    }
}

/// The terminal textual form, as `terminal_text` describes.
fn terminal_text_exec(v: &JsonValue) -> (r: Option<Vec<char>>)
    ensures
        match r {
            Some(t) => terminal_text(v.model()) == Some(t@),
            None => terminal_text(v.model()) is None,
        },
{
    match v {
        JsonValue::Null => None,
        JsonValue::Num(t) => Some(crate::record::clone_chars(t)),
        JsonValue::Str(s) => Some(crate::record::clone_chars(s)),
        JsonValue::Bool(b) => {
            if *b {
                Some(to_chars("true"))
            } else {
                Some(to_chars("false"))
            }
        },
        JsonValue::Array(items) => {
            let mut out: Vec<char> = Vec::new();
            push_debug_items(&mut out, items);
            proof {
                assert(out@ =~= debug_items(crate::json::items_model(*items), 0));
            }
            Some(out)
        },
        JsonValue::Object(m) => {
            let mut out: Vec<char> = Vec::new();
            push_debug_fields(&mut out, m);
            proof {
                assert(out@ =~= debug_fields(crate::json::fields_model(*m), 0));
            }
            Some(out)
        },
    }
}

/// The rendered text a dotted path reaches in the field map, if any.
pub open spec fn value_of(fs: Seq<(Seq<char>, JVal)>, key: Seq<char>) -> Option<Seq<char>> {
    match lookup_path(fs, split_dots(key)) {
        Some(v) => terminal_text(v),
        None => None,
    }
}

/// Dotted-path lookup over the field map, as `value_of` describes.
pub fn value_of_exec(fields: &Vec<(Vec<char>, JsonValue)>, key: &Vec<char>) -> (r: Option<
    Vec<char>,
>)
    ensures
        match r {
            Some(t) => value_of(crate::json::fields_model(*fields), key@) == Some(t@),
            None => value_of(crate::json::fields_model(*fields), key@) is None,
        },
{
    let parts = split_dots_exec(key);
    let ghost sparts = split_dots(key@);
    let mut cur: &Vec<(Vec<char>, JsonValue)> = fields;
    let mut i: usize = 0;
    proof {
        assert(sparts.skip(0) =~= sparts);
    }
    while i < parts.len() - 1
        invariant
            sparts == split_dots(key@),
            i < parts@.len(),
            parts@.len() == sparts.len(),
            forall|j: int| 0 <= j < parts@.len() ==> parts@[j]@ == sparts[j],
            lookup_path(crate::json::fields_model(*fields), sparts) == lookup_path(
                crate::json::fields_model(*cur),
                sparts.skip(i as int),
            ),
        decreases parts@.len() - i,
    {
        proof {
            assert(parts@[i as int]@ == sparts[i as int]);
            assert(sparts.skip(i as int).len() > 1);
            assert(sparts.skip(i as int)[0] == sparts[i as int]);
        }
        let found = crate::record::get_field_chars(cur, &parts[i]);
        match found {
            Some(v) => match v {
                JsonValue::Object(m) => {
                    proof {
                        assert(sparts.skip(i as int).drop_first() =~= sparts.skip(i + 1));
                    }
                    cur = m;
                },
                _ => {
                    proof {
                        assert(!(v.model() is Obj));
                        assert(lookup_path(
                            crate::json::fields_model(*cur),
                            sparts.skip(i as int),
                        ) is None);
                        assert(lookup_path(crate::json::fields_model(*fields), sparts) is None);
                        assert(value_of(crate::json::fields_model(*fields), key@) is None) by {
                            assert(split_dots(key@) == sparts);
                            assert(lookup_path(crate::json::fields_model(*fields), split_dots(key@))
                                is None);
                        }
                    }
                    return None;
                },
            },
            None => {
                proof {
                    assert(lookup_path(
                        crate::json::fields_model(*cur),
                        sparts.skip(i as int),
                    ) is None);
                    assert(lookup_path(crate::json::fields_model(*fields), sparts) is None);
                    assert(value_of(crate::json::fields_model(*fields), key@) is None) by {
                        assert(split_dots(key@) == sparts);
                        assert(lookup_path(crate::json::fields_model(*fields), split_dots(key@))
                            is None);
                    }
                }
                return None;
            },
        }
        i += 1;
    }
    proof {
        assert(sparts.skip(i as int).len() == 1);
        assert(sparts.skip(i as int)[0] == sparts[i as int]);
    }
    match crate::record::get_field_chars(cur, &parts[i]) {
        Some(v) => terminal_text_exec(v),
        None => None,
    }
}

/// One step of the 64-bit FNV-1a fold.
pub open spec fn fnv_step(acc: u64, c: char) -> u64 {
    ((((acc ^ (c as u64)) as int) * 0x100000001b3) % 0x10000000000000000) as u64
}

/// The 64-bit FNV-1a fold of the text from position `i` on.
pub open spec fn fnv_from(s: Seq<char>, i: int, acc: u64) -> u64
    decreases s.len() - i,
{
    if i < 0 || i >= s.len() {
        acc
    } else {
        fnv_from(s, i + 1, fnv_step(acc, s[i]))
    }
}

/// The 64-bit FNV-1a hash of a text.
pub open spec fn fnv_hash(s: Seq<char>) -> u64 {
    fnv_from(s, 0, 0xcbf29ce484222325)
}

/// The FNV-1a hash, folded character by character.
fn fnv_hash_exec(s: &Vec<char>) -> (h: u64)
    ensures
        h == fnv_hash(s@),
{
    let mut acc: u64 = 0xcbf29ce484222325;
    let mut k: usize = 0;
    while k < s.len()
        invariant
            k <= s@.len(),
            fnv_hash(s@) == fnv_from(s@, k as int, acc),
        decreases s@.len() - k,
    {
        let x = acc ^ (s[k] as u64);
        let wide: u128 = (x as u128) * 0x100000001b3;
        let next = (wide % 0x10000000000000000) as u64;
        proof {
            assert(next == fnv_step(acc, s@[k as int]));
        }
        acc = next;
        k += 1;
    }
    acc
}

/// Whether scaled BT.709 luma of the color falls below the threshold.
pub open spec fn is_too_dark_spec(r: u8, g: u8, b: u8) -> bool {
    2126 * (r as int) + 7152 * (g as int) + 722 * (b as int) < 800000
}

/// Scaled BT.709 luma comparison against the darkness threshold.
pub fn is_too_dark(r: u8, g: u8, b: u8) -> (dark: bool)
    ensures
        dark == is_too_dark_spec(r, g, b),
{
    let luma: u32 = 2126 * (r as u32) + 7152 * (g as u32) + 722 * (b as u32);
    luma < 800000
}

/// The ANSI highlight sequence derived from a text: a 24-bit foreground
/// from the text's hash, bold for half the hashes, and a white background
/// behind dark colors.
pub open spec fn random_color_spec(s: Seq<char>) -> Seq<char> {
    let h = fnv_hash(s);
    let red = (h & 0xFF) as u8;
    let green = ((h >> 8) & 0xFF) as u8;
    let blue = ((h >> 16) & 0xFF) as u8;
    let bold: Seq<char> = if ((h >> 24) & 0x1) == 0 {
        "1"@
    } else {
        ""@
    };
    let fg: Seq<char> = if is_too_dark_spec(red, green, blue) {
        "48;2;255;255;255"@
    } else {
        "40"@
    };
    "\x1b["@ + bold + ";"@ + fg + ";38;2;"@ + dec_digits(red as nat) + ";"@ + dec_digits(
        green as nat,
    ) + ";"@ + dec_digits(blue as nat) + "m"@
}

/// The ANSI highlight sequence of a text, as `random_color_spec` describes.
pub fn random_color(input: &Vec<char>) -> (r: Vec<char>)
    ensures
        r@ == random_color_spec(input@),
{
    let h = fnv_hash_exec(input);
    let red = (h & 0xFF) as u8;
    let green = ((h >> 8) & 0xFF) as u8;
    let blue = ((h >> 16) & 0xFF) as u8;
    let mut out: Vec<char> = Vec::new();
    push_lit(&mut out, "\x1b[");
    if ((h >> 24) & 0x1) == 0 {
        push_lit(&mut out, "1");
    }
    push_lit(&mut out, ";");
    if is_too_dark(red, green, blue) {
        push_lit(&mut out, "48;2;255;255;255");
    } else {
        push_lit(&mut out, "40");
    }
    push_lit(&mut out, ";38;2;");
    push_dec_byte(&mut out, red);
    push_lit(&mut out, ";");
    push_dec_byte(&mut out, green);
    push_lit(&mut out, ";");
    push_dec_byte(&mut out, blue);
    push_lit(&mut out, "m");
    proof {
        reveal_strlit("");
        assert(""@ =~= Seq::<char>::empty());
        assert(out@ =~= random_color_spec(input@));
    }
    out
}


/// Configuration the renderer consumes.
pub struct PrintConfig {
    /// Extra dotted field paths to surface after the tags.
    pub extra: Vec<String>,
    /// Dump the full field map beneath the message.
    pub verbose: bool,
    /// Render times in the supplied local offset instead of UTC.
    pub is_local_timezone: bool,
    /// The local offset east of UTC, in seconds, used when local time is on.
    pub local_offset_secs: i32,
    /// Join the message into one line and cut it to this many characters.
    pub oneline_maxlength: Option<usize>,
    /// Emit ANSI styling.
    pub color: bool,
    /// Drop log records ranked below this severity.
    pub min_severity: Option<Severity>,
}

impl PrintConfig {
    /// The offset east of UTC that rendering uses, in seconds.
    pub open spec fn tz_spec(self) -> i32 {
        if self.is_local_timezone {
            self.local_offset_secs
        } else {
            0
        }
    }

    /// The offset east of UTC that rendering uses, in seconds.
    pub fn tz(&self) -> (r: i32)
        ensures
            r == self.tz_spec(),
    {
        if self.is_local_timezone {
            self.local_offset_secs
        } else {
            0
        }
    }

    /// A well-formed offset stays within one day of UTC.
    pub open spec fn wf(self) -> bool {
        -86_400 < self.local_offset_secs < 86_400
    }
}

/// Text wrapped in an ANSI style when color is on.
pub open spec fn sgr(color: bool, codes: Seq<char>, s: Seq<char>) -> Seq<char> {
    if color {
        "\x1b["@ + codes + "m"@ + s + "\x1b[0m"@
    } else {
        s
    }
}

/// Append the text, wrapped in the ANSI style when color is on.
fn push_sgr(out: &mut Vec<char>, color: bool, codes: &str, s: &Vec<char>)
    ensures
        final(out)@ == old(out)@ + sgr(color, codes@, s@),
{
    if color {
        push_lit(out, "\x1b[");
        push_lit(out, codes);
        push_lit(out, "m");
        push_all(out, s);
        push_lit(out, "\x1b[0m");
        proof {
            assert(out@ =~= old(out)@ + sgr(true, codes@, s@));
        }
    } else {
        push_all(out, s);
    }
}

/// Leading whitespace never runs past the end of the text.
proof fn lemma_ws_len_bound(s: Seq<char>, i: nat)
    requires
        i <= s.len(),
    ensures
        i + ws_len(s, i) <= s.len(),
    decreases s.len() - i,
{
    if i < s.len() && is_ws(s[i as int]) {
        lemma_ws_len_bound(s, i + 1);
    }
}

/// The text with trailing whitespace dropped.
pub open spec fn trim_end_rec(s: Seq<char>) -> Seq<char>
    decreases s.len(),
{
    if s.len() > 0 && is_ws(s.last()) {
        trim_end_rec(s.drop_last())
    } else {
        s
    }
}

/// The text with leading and trailing whitespace dropped.
pub open spec fn trim_chars(s: Seq<char>) -> Seq<char> {
    trim_end_rec(s.skip(ws_len(s, 0) as int))
}

/// Trim whitespace from both ends, as `trim_chars` describes.
fn trim_exec(s: &Vec<char>) -> (r: Vec<char>)
    ensures
        r@ == trim_chars(s@),
{
    proof {
        lemma_ws_len_bound(s@, 0);
    }
    let a = crate::parser::e_ws(s, 0);
    let mut b = s.len();
    proof {
        assert(s@.subrange(a as int, b as int) =~= s@.skip(a as int));
    }
    while b > a && (s[b - 1] == ' ' || s[b - 1] == '\t' || s[b - 1] == '\r' || s[b - 1] == '\n')
        invariant
            a <= b <= s@.len(),
            a == ws_len(s@, 0),
            trim_end_rec(s@.skip(a as int)) == trim_end_rec(s@.subrange(a as int, b as int)),
        decreases b,
    {
        proof {
            let cur = s@.subrange(a as int, b as int);
            assert(cur.last() == s@[b - 1]);
            assert(cur.drop_last() =~= s@.subrange(a as int, b - 1));
        }
        b -= 1;
    }
    proof {
        let cur = s@.subrange(a as int, b as int);
        if b > a {
            assert(cur.last() == s@[b - 1]);
            assert(!is_ws(cur.last()));
        }
        assert(trim_end_rec(cur) == cur);
    }
    crate::parser::copy_range(s, a, b)
}

/// Index of the first newline, or -1.
pub open spec fn nl_idx(s: Seq<char>) -> int
    decreases s.len(),
{
    if s.len() == 0 {
        -1
    } else if s[0] == '\n' {
        0
    } else {
        let r = nl_idx(s.drop_first());
        if r == -1 {
            -1
        } else {
            r + 1
        }
    }
}

/// The first newline sits within the text, and nothing before it is one.
proof fn lemma_nl_idx(s: Seq<char>)
    ensures
        -1 <= nl_idx(s) < s.len(),
        nl_idx(s) >= 0 ==> s[nl_idx(s)] == '\n',
        forall|j: int| 0 <= j < nl_idx(s) ==> s[j] != '\n',
        nl_idx(s) == -1 ==> forall|j: int| 0 <= j < s.len() ==> s[j] != '\n',
    decreases s.len(),
{
    if s.len() > 0 && s[0] != '\n' {
        lemma_nl_idx(s.drop_first());
        let t = s.drop_first();
        assert forall|j: int| 0 <= j < nl_idx(s) implies s[j] != '\n' by {
            if j > 0 {
                assert(t[j - 1] != '\n');
            }
        }
        if nl_idx(s) == -1 {
            assert forall|j: int| 0 <= j < s.len() implies s[j] != '\n' by {
                if j > 0 {
                    assert(t[j - 1] != '\n');
                }
            }
        }
    }
}

/// The lines of a text, split on newlines; an empty text has none, and a
/// trailing newline closes the last line.
pub open spec fn split_lines(s: Seq<char>) -> Seq<Seq<char>>
    decreases s.len(),
{
    if s.len() == 0 {
        Seq::empty()
    } else {
        let i = nl_idx(s);
        if i < 0 || i >= s.len() {
            seq![s]
        } else {
            seq![s.take(i)] + split_lines(s.skip(i + 1))
        }
    }
}

/// Split a text on newlines, as `split_lines` describes.
fn split_lines_exec(s: &Vec<char>) -> (r: Vec<Vec<char>>)
    ensures
        r@.len() == split_lines(s@).len(),
        forall|i: int| 0 <= i < r@.len() ==> r@[i]@ == split_lines(s@)[i],
    decreases s@.len(),
{
    proof {
        lemma_nl_idx(s@);
    }
    if s.len() == 0 {
        let r: Vec<Vec<char>> = Vec::new();
        return r;
    }
    let mut i: usize = 0;
    while i < s.len() && s[i] != '\n'
        invariant
            i <= s@.len(),
            forall|j: int| 0 <= j < i ==> s@[j] != '\n',
        decreases s@.len() - i,
    {
        i += 1;
    }
    if i >= s.len() {
        proof {
            assert(nl_idx(s@) == -1) by {
                lemma_nl_idx(s@);
                if nl_idx(s@) >= 0 {
                    assert(s@[nl_idx(s@)] == '\n');
                }
            }
        }
        let mut r: Vec<Vec<char>> = Vec::new();
        r.push(crate::record::clone_chars(s));
        return r;
    }
    proof {
        assert(nl_idx(s@) == i) by {
            lemma_nl_idx(s@);
            if nl_idx(s@) > i {
                assert(s@[i as int] != '\n');
            }
            if 0 <= nl_idx(s@) < i {
                assert(s@[nl_idx(s@)] == '\n');
            }
            if nl_idx(s@) == -1 {
                assert(s@[i as int] != '\n');
            }
        }
    }
    let head = crate::parser::copy_range(s, 0, i);
    let tail = crate::parser::copy_range(s, i + 1, s.len());
    proof {
        assert(tail@ =~= s@.skip(i + 1));
    }
    let mut rest = split_lines_exec(&tail);
    let ghost restm = rest@;
    rest.insert(0, head);
    proof {
        assert(split_lines(s@) == seq![s@.take(i as int)] + split_lines(s@.skip(i + 1)));
        assert(rest@.len() == split_lines(s@).len());
        assert forall|j: int| 0 <= j < rest@.len() implies rest@[j]@ == split_lines(s@)[j] by {
            if j > 0 {
                assert(rest@[j] == restm[j - 1]);
                assert(restm[j - 1]@ == split_lines(s@.skip(i + 1))[j - 1]);
            }
        }
    }
    rest
}

/// The text with each newline replaced, from position `i` on.
pub open spec fn repl_nl(s: Seq<char>, i: int, rep: Seq<char>) -> Seq<char>
    decreases s.len() - i,
{
    if i < 0 || i >= s.len() {
        Seq::empty()
    } else {
        let head = if s[i] == '\n' {
            rep
        } else {
            seq![s[i]]
        };
        head + repl_nl(s, i + 1, rep)
    }
}

/// Append the text with newlines replaced.
fn push_repl_nl(out: &mut Vec<char>, s: &Vec<char>, rep: &Vec<char>)
    ensures
        final(out)@ == old(out)@ + repl_nl(s@, 0, rep@),
{
    let mut k: usize = 0;
    proof {
        assert(out@ + repl_nl(s@, 0, rep@) =~= old(out)@ + repl_nl(s@, 0, rep@));
    }
    while k < s.len()
        invariant
            k <= s@.len(),
            old(out)@ + repl_nl(s@, 0, rep@) == out@ + repl_nl(s@, k as int, rep@),
        decreases s@.len() - k,
    {
        let ghost pre = out@;
        let ghost head = if s@[k as int] == '\n' {
            rep@
        } else {
            seq![s@[k as int]]
        };
        if s[k] == '\n' {
            push_all(out, rep);
        } else {
            out.push(s[k]);
        }
        proof {
            assert(out@ == pre + head);
            assert(repl_nl(s@, k as int, rep@) == head + repl_nl(s@, k + 1, rep@));
            assert((pre + head) + repl_nl(s@, k + 1, rep@) =~= pre + (head + repl_nl(
                s@,
                k + 1,
                rep@,
            )));
        }
        k += 1;
    }
    proof {
        assert(repl_nl(s@, s@.len() as int, rep@) =~= Seq::<char>::empty());
        assert(out@ + Seq::<char>::empty() =~= out@);
    }
}

/// The visible line-break marker used in one-line mode.
pub open spec fn nl_marker() -> Seq<char> {
    seq![' ', crate::textutil::char_of(0x2936), ' ']
}

/// The marker characters.
fn nl_marker_exec() -> (r: Vec<char>)
    ensures
        r@ == nl_marker(),
{
    broadcast use vstd::utf8::char_u32_cast;

    let mut m: Vec<char> = Vec::new();
    m.push(' ');
    match char::from_u32(0x2936) {
        Some(c) => {
            proof {
                vstd::utf8::char_u32_cast(c, 0x2936);
            }
            m.push(c);
        },
        None => {
            m.push(' ');
        },
    }
    m.push(' ');
    proof {
        assert(m@ =~= nl_marker());
    }
    m
}

/// The message in one-line form: newlines become the visible marker and
/// the text is cut to the character budget, with an ellipsis when cut.
pub open spec fn oneline_msg(m: Seq<char>, maxlen: nat) -> Seq<char> {
    let r = repl_nl(m, 0, nl_marker());
    if r.len() > maxlen {
        let keep: nat = if maxlen >= 3 {
            (maxlen - 3) as nat
        } else {
            0
        };
        r.take(keep as int) + "..."@
    } else {
        r
    }
}

/// The transformed message and the key that supplied it: trimmed, then
/// either joined into one budgeted line or kept as is for line splitting.
pub open spec fn message_text(msg: Seq<char>, oneline: Option<usize>) -> Seq<char> {
    let t = trim_chars(msg);
    match oneline {
        Some(maxlen) => oneline_msg(t, maxlen as nat),
        None => t,
    }
}

impl LogLine {
    /// The key that supplied the message, and the message transformed for
    /// display, as `message_text` describes.
    pub fn get_message(&self, config: &PrintConfig) -> (r: (Vec<char>, Vec<char>))
        ensures
            r.0@ == self.message_key@,
            r.1@ == message_text(self.message@, config.oneline_maxlength),
    {
        let trimmed = trim_exec(&self.message);
        let msg = match config.oneline_maxlength {
            Some(maxlen) => {
                let mut joined: Vec<char> = Vec::new();
                let marker = nl_marker_exec();
                push_repl_nl(&mut joined, &trimmed, &marker);
                proof {
                    assert(joined@ =~= repl_nl(trimmed@, 0, nl_marker()));
                }
                if joined.len() > maxlen {
                    let keep = if maxlen >= 3 {
                        maxlen - 3
                    } else {
                        0
                    };
                    let mut cut = crate::parser::copy_range(&joined, 0, keep);
                    let mut dots = to_chars("...");
                    cut.append(&mut dots);
                    proof {
                        assert(cut@ =~= oneline_msg(trimmed@, maxlen as nat));
                    }
                    cut
                } else {
                    joined
                }
            },
            None => trimmed,
        };
        (crate::record::clone_chars(&self.message_key), msg)
    }
}


/// Strict lexicographic order on texts, from position `i` on.
pub open spec fn lex_from(a: Seq<char>, b: Seq<char>, i: int) -> bool
    decreases b.len() - i,
{
    if i < 0 || i >= b.len() {
        false
    } else if i >= a.len() {
        true
    } else if a[i] != b[i] {
        (a[i] as u32) < (b[i] as u32)
    } else {
        lex_from(a, b, i + 1)
    }
}

/// Strict lexicographic order on texts, by character code.
pub open spec fn lex_lt(a: Seq<char>, b: Seq<char>) -> bool {
    lex_from(a, b, 0)
}

/// Lexicographic comparison, as `lex_lt` describes.
fn lex_lt_exec(a: &Vec<char>, b: &Vec<char>) -> (r: bool)
    ensures
        r == lex_lt(a@, b@),
{
    let mut k: usize = 0;
    loop
        invariant
            0 <= k <= a@.len() || 0 <= k <= b@.len(),
            k <= a@.len() + 1 && k <= b@.len() + 1,
            lex_lt(a@, b@) == lex_from(a@, b@, k as int),
        decreases b@.len() + 1 - k,
    {
        if k >= b.len() {
            return false;
        }
        if k >= a.len() {
            return true;
        }
        let ca = a[k];
        let cb = b[k];
        if ca != cb {
            return (ca as u32) < (cb as u32);
        }
        k += 1;
    }
}

/// The keys of a field list, each with its place.
pub open spec fn keyidx(fs: Seq<(Seq<char>, JVal)>) -> Seq<(Seq<char>, int)> {
    Seq::new(fs.len(), |i: int| (fs[i].0, i))
}

/// A key-and-place pair set into a sorted list, before the first entry
/// that is not below it.
pub open spec fn insert_ki(p: (Seq<char>, int), sorted: Seq<(Seq<char>, int)>) -> Seq<
    (Seq<char>, int),
>
    decreases sorted.len(),
{
    if sorted.len() == 0 {
        seq![p]
    } else if !lex_lt(sorted[0].0, p.0) {
        seq![p] + sorted
    } else {
        seq![sorted[0]] + insert_ki(p, sorted.drop_first())
    }
}

/// The key-and-place pairs in ascending key order (insertion sort).
pub open spec fn sort_ki(ps: Seq<(Seq<char>, int)>) -> Seq<(Seq<char>, int)>
    decreases ps.len(),
{
    if ps.len() == 0 {
        Seq::empty()
    } else {
        insert_ki(ps[0], sort_ki(ps.drop_first()))
    }
}

/// Setting a pair at the first place whose entry is not below it matches
/// `insert_ki`.
proof fn lemma_insert_at(p: (Seq<char>, int), sorted: Seq<(Seq<char>, int)>, j: int)
    requires
        0 <= j <= sorted.len(),
        forall|t: int| 0 <= t < j ==> lex_lt(#[trigger] sorted[t].0, p.0),
        j < sorted.len() ==> !lex_lt(sorted[j].0, p.0),
    ensures
        insert_ki(p, sorted) == sorted.insert(j, p),
    decreases sorted.len(),
{
    if sorted.len() == 0 {
        assert(insert_ki(p, sorted) =~= sorted.insert(0, p));
    } else if j == 0 {
        assert(insert_ki(p, sorted) =~= sorted.insert(0, p));
    } else {
        assert(lex_lt(sorted[0].0, p.0));
        lemma_insert_at(p, sorted.drop_first(), j - 1);
        assert(seq![sorted[0]] + sorted.drop_first().insert(j - 1, p) =~= sorted.insert(j, p));
    }
}

/// Ghost form of a sorted key list.
pub open spec fn ki_model(order: Seq<(Vec<char>, usize)>) -> Seq<(Seq<char>, int)> {
    Seq::new(order.len(), |i: int| (order[i].0@, order[i].1 as int))
}

/// Sort the keys of the field list, as `sort_ki` of `keyidx` describes.
fn sort_keys(fs: &Vec<(Vec<char>, JsonValue)>) -> (order: Vec<(Vec<char>, usize)>)
    ensures
        ki_model(order@) == sort_ki(keyidx(crate::json::fields_model(*fs))),
{
    let ghost kim = keyidx(crate::json::fields_model(*fs));
    let mut order: Vec<(Vec<char>, usize)> = Vec::new();
    let mut i = fs.len();
    proof {
        assert(kim.skip(fs@.len() as int) =~= Seq::<(Seq<char>, int)>::empty());
        assert(ki_model(order@) =~= sort_ki(kim.skip(fs@.len() as int)));
    }
    while i > 0
        invariant
            i <= fs@.len(),
            kim == keyidx(crate::json::fields_model(*fs)),
            kim.len() == fs@.len(),
            ki_model(order@) == sort_ki(kim.skip(i as int)),
        decreases i,
    {
        i -= 1;
        let key = crate::record::clone_chars(&fs[i].0);
        let ghost p = kim[i as int];
        proof {
            assert(p.0 == key@ && p.1 == i);
        }
        // find the first entry not below the key
        let mut j: usize = 0;
        while j < order.len() && lex_lt_exec(&order[j].0, &key)
            invariant
                j <= order@.len(),
                key@ == p.0,
                forall|t: int| 0 <= t < j ==> lex_lt(#[trigger] ki_model(order@)[t].0, p.0),
            decreases order@.len() - j,
        {
            proof {
                assert(ki_model(order@)[j as int].0 == order@[j as int].0@);
            }
            j += 1;
        }
        let ghost prem = ki_model(order@);
        proof {
            if j < order@.len() {
                assert(ki_model(order@)[j as int].0 == order@[j as int].0@);
            }
            lemma_insert_at(p, prem, j as int);
        }
        order.insert(j, (key, i));
        proof {
            assert(ki_model(order@) =~= prem.insert(j as int, p));
            assert(kim.skip(i as int)[0] == kim[i as int]);
            assert(kim.skip(i as int).drop_first() =~= kim.skip(i + 1));
            assert(ki_model(order@) == sort_ki(kim.skip(i as int)));
        }
    }
    proof {
        assert(kim.skip(0) =~= kim);
    }
    order
}

/// How deep objects nest beneath a value, stopped far beyond any depth a
/// machine could recurse into.
pub open spec fn jv_depth(v: JVal) -> nat
    decreases v, 0int,
{
    match v {
        JVal::Obj(m) => 1 + fields_depth_s(m, 0),
        _ => 0,
    }
}

/// The deepest nesting among the field values from place `i` on.
pub open spec fn fields_depth_s(fs: Seq<(Seq<char>, JVal)>, i: int) -> nat
    decreases fs, fs.len() - i,
{
    if i < 0 || i >= fs.len() {
        0
    } else {
        let d = jv_depth(fs[i].1);
        let rest = fields_depth_s(fs, i + 1);
        if d >= 1000000 {
            1000000
        } else if d > rest {
            d
        } else {
            rest
        }
    }
}

/// The deepest nesting among the field values, as `fields_depth_s`
/// describes.
fn fields_depth(fs: &Vec<(Vec<char>, JsonValue)>) -> (d: usize)
    ensures
        d == fields_depth_s(crate::json::fields_model(*fs), 0),
        d <= 1000000,
    decreases fs, 1int,
{
    let ghost m = crate::json::fields_model(*fs);
    let mut best: usize = 0;
    let mut i = fs.len();
    proof {
        assert(fields_depth_s(m, fs@.len() as int) == 0);
    }
    while i > 0
        invariant
            i <= fs@.len(),
            m == crate::json::fields_model(*fs),
            best == fields_depth_s(m, i as int),
            best <= 1000000,
        decreases i,
    {
        i -= 1;
        let d: usize = match &fs[i].1 {
            JsonValue::Object(inner) => {
                let sub = fields_depth(inner);
                1 + sub
            },
            _ => 0,
        };
        proof {
            assert(d == jv_depth(m[i as int].1));
        }
        if d >= 1000000 {
            best = 1000000;
        } else if d > best {
            best = d;
        }
    }
    best
}

/// Whether a key is consumed by the timestamp or severity machinery and
/// left out of the verbose dump.
pub open spec fn skip_key(k: Seq<char>) -> bool {
    k == "timestamp"@ || k == "@timestamp"@ || k == "severity"@ || k == "level"@
}

/// One `key = value` line of the verbose dump.
pub open spec fn entry_line(
    indent: Seq<char>,
    key: Seq<char>,
    valtext: Seq<char>,
    color: bool,
) -> Seq<char> {
    indent + sgr(color, "90"@, key) + " = "@ + valtext + "\n"@
}

/// A string value in the dump: a multi-line string moves to its own
/// indented lines.
pub open spec fn str_dump_text(s: Seq<char>, indent: Seq<char>) -> Seq<char> {
    if crate::textutil::contains_sub(s, "\n"@) {
        let pfx = "\n"@ + indent + "  "@;
        pfx + repl_nl(s, 0, pfx)
    } else {
        s
    }
}

/// The verbose dump of a field map: keys in ascending order, one line per
/// plain value, nested non-empty objects as an indented block, with the
/// timestamp, severity and message keys left out.
pub open spec fn dump_map(
    fs: Seq<(Seq<char>, JVal)>,
    indent: Seq<char>,
    mk: Seq<char>,
    color: bool,
    fuel: nat,
) -> Seq<char>
    decreases fuel, 1int, 0int,
{
    dump_entries(fs, sort_ki(keyidx(fs)), 0, indent, mk, color, fuel)
}

/// The dump lines from place `j` of the sorted key list on.
pub open spec fn dump_entries(
    fs: Seq<(Seq<char>, JVal)>,
    order: Seq<(Seq<char>, int)>,
    j: int,
    indent: Seq<char>,
    mk: Seq<char>,
    color: bool,
    fuel: nat,
) -> Seq<char>
    decreases fuel, 0int, order.len() - j,
{
    if j < 0 || j >= order.len() {
        Seq::empty()
    } else {
        let key = order[j].0;
        let idx = order[j].1;
        let v = if 0 <= idx < fs.len() {
            fs[idx].1
        } else {
            JVal::Null
        };
        let rest = dump_entries(fs, order, j + 1, indent, mk, color, fuel);
        if skip_key(key) {
            rest
        } else {
            match v {
                JVal::Null => rest,
                JVal::Num(t) => if key == mk {
                    rest
                } else {
                    entry_line(indent, key, t, color) + rest
                },
                JVal::Str(s) => if key == mk {
                    rest
                } else {
                    entry_line(indent, key, str_dump_text(s, indent), color) + rest
                },
                JVal::Bool(b) => if key == mk {
                    rest
                } else {
                    entry_line(
                        indent,
                        key,
                        if b {
                            "true"@
                        } else {
                            "false"@
                        },
                        color,
                    ) + rest
                },
                JVal::Arr(a) => if key == mk {
                    rest
                } else {
                    entry_line(indent, key, debug_items(a, 0), color) + rest
                },
                JVal::Obj(m) => if m.len() == 0 {
                    rest
                } else {
                    indent + sgr(color, "90"@, key) + ":\n"@ + (if fuel == 0 {
                        Seq::<char>::empty()
                    } else {
                        dump_map(m, "  "@ + indent, mk, color, (fuel - 1) as nat)
                    }) + rest
                },
            }
        }
    }
}

/// Whether the characters equal the literal's characters.
fn eq_lit(a: &Vec<char>, lit: &str) -> (r: bool)
    ensures
        r == (a@ == lit@),
{
    let l = to_chars(lit);
    crate::json::eq_chars(a, &l)
}

/// Append the verbose dump of a field map, as `dump_map` describes.
#[verifier::rlimit(100)]
fn dump_exec(
    out: &mut Vec<char>,
    fs: &Vec<(Vec<char>, JsonValue)>,
    indent: &Vec<char>,
    mk: &Vec<char>,
    color: bool,
    fuel: usize,
)
    ensures
        final(out)@ == old(out)@ + dump_map(
            crate::json::fields_model(*fs),
            indent@,
            mk@,
            color,
            fuel as nat,
        ),
    decreases fuel, 1int, 0int,
{
    let ghost m = crate::json::fields_model(*fs);
    let order = sort_keys(fs);
    let ghost om = ki_model(order@);
    let mut j: usize = 0;
    proof {
        assert(out@ + dump_entries(m, om, 0, indent@, mk@, color, fuel as nat) =~= old(out)@
            + dump_entries(m, om, 0, indent@, mk@, color, fuel as nat));
    }
    while j < order.len()
        invariant
            j <= order@.len(),
            m == crate::json::fields_model(*fs),
            om == ki_model(order@),
            om == sort_ki(keyidx(m)),
            old(out)@ + dump_entries(m, om, 0, indent@, mk@, color, fuel as nat) == out@
                + dump_entries(m, om, j as int, indent@, mk@, color, fuel as nat),
        decreases order@.len() - j,
    {
        let ghost pre = out@;
        let ghost key = om[j as int].0;
        let ghost idx = om[j as int].1;
        let ghost v = if 0 <= idx < m.len() {
            m[idx].1
        } else {
            JVal::Null
        };
        let k = &order[j].0;
        proof {
            assert(k@ == key);
        }
        let skip = eq_lit(k, "timestamp") || eq_lit(k, "@timestamp") || eq_lit(k, "severity")
            || eq_lit(k, "level");
        if !skip {
            let i0 = order[j].1;
            if i0 < fs.len() {
                proof {
                    assert(idx == i0 as int);
                    assert(v == m[i0 as int].1);
                }
                match &fs[i0].1 {
                    JsonValue::Null => {},
                    JsonValue::Num(t) => {
                        if !crate::json::eq_chars(k, mk) {
                            push_all(out, indent);
                            push_sgr(out, color, "90", k);
                            push_lit(out, " = ");
                            push_all(out, t);
                            push_lit(out, "\n");
                            proof {
                                assert(out@ =~= pre + entry_line(indent@, key, t@, color));
                            }
                        }
                    },
                    JsonValue::Str(s) => {
                        if !crate::json::eq_chars(k, mk) {
                            push_all(out, indent);
                            push_sgr(out, color, "90", k);
                            push_lit(out, " = ");
                            let nl = to_chars("\n");
                            if crate::textutil::contains_chars(s, &nl) {
                                let mut pfx = to_chars("\n");
                                let mut ind = crate::record::clone_chars(indent);
                                pfx.append(&mut ind);
                                let mut two = to_chars("  ");
                                pfx.append(&mut two);
                                proof {
                                    assert(pfx@ =~= "\n"@ + indent@ + "  "@);
                                }
                                push_all(out, &pfx);
                                push_repl_nl(out, s, &pfx);
                                proof {
                                    assert(str_dump_text(s@, indent@) == pfx@ + repl_nl(
                                        s@,
                                        0,
                                        pfx@,
                                    ));
                                }
                            } else {
                                push_all(out, s);
                            }
                            push_lit(out, "\n");
                            proof {
                                assert(out@ =~= pre + entry_line(
                                    indent@,
                                    key,
                                    str_dump_text(s@, indent@),
                                    color,
                                ));
                            }
                        }
                    },
                    JsonValue::Bool(b) => {
                        if !crate::json::eq_chars(k, mk) {
                            push_all(out, indent);
                            push_sgr(out, color, "90", k);
                            push_lit(out, " = ");
                            if *b {
                                push_lit(out, "true");
                            } else {
                                push_lit(out, "false");
                            }
                            push_lit(out, "\n");
                            proof {
                                let bt: Seq<char> = if *b {
                                    "true"@
                                } else {
                                    "false"@
                                };
                                assert(out@ =~= pre + entry_line(indent@, key, bt, color));
                            }
                        }
                    },
                    JsonValue::Array(a) => {
                        if !crate::json::eq_chars(k, mk) {
                            push_all(out, indent);
                            push_sgr(out, color, "90", k);
                            push_lit(out, " = ");
                            push_debug_items(out, a);
                            push_lit(out, "\n");
                            proof {
                                assert(out@ =~= pre + entry_line(
                                    indent@,
                                    key,
                                    debug_items(crate::json::items_model(*a), 0),
                                    color,
                                ));
                            }
                        }
                    },
                    JsonValue::Object(inner) => {
                        if inner.len() > 0 {
                            push_all(out, indent);
                            push_sgr(out, color, "90", k);
                            push_lit(out, ":\n");
                            if fuel > 0 {
                                let mut ind2 = to_chars("  ");
                                let mut tail = crate::record::clone_chars(indent);
                                ind2.append(&mut tail);
                                proof {
                                    assert(ind2@ =~= "  "@ + indent@);
                                }
                                dump_exec(out, inner, &ind2, mk, color, fuel - 1);
                            }
                            proof {
                                let sub: Seq<char> = if fuel == 0 {
                                    Seq::<char>::empty()
                                } else {
                                    dump_map(
                                        crate::json::fields_model(*inner),
                                        "  "@ + indent@,
                                        mk@,
                                        color,
                                        (fuel - 1) as nat,
                                    )
                                };
                                assert(out@ =~= pre + (indent@ + sgr(color, "90"@, key) + ":\n"@
                                    + sub));
                            }
                        }
                    },
                }
            }
        }
        proof {
            let rest = dump_entries(m, om, j + 1, indent@, mk@, color, fuel as nat);
            let whole = dump_entries(m, om, j as int, indent@, mk@, color, fuel as nat);
            assert(out@ + rest =~= pre + whole);
        }
        j += 1;
    }
    proof {
        assert(dump_entries(m, om, om.len() as int, indent@, mk@, color, fuel as nat)
            =~= Seq::<char>::empty());
        assert(out@ + Seq::<char>::empty() =~= out@);
    }
}

/// ANSI codes for a severity rank: the severity's own color and the
/// message color.
pub open spec fn sev_codes(r: Severity) -> (Seq<char>, Seq<char>) {
    match r {
        Severity::Tracing => ("90"@, "90"@),
        Severity::Debug => ("90"@, "90"@),
        Severity::Info => ("90"@, "37"@),
        Severity::Warning => ("33"@, "33"@),
        Severity::Error => ("31"@, "31"@),
        Severity::Fatal => ("35"@, "35"@),
    }
}

/// The identity tag after the timestamp: the process id when present,
/// else the request id, else nothing.
pub open spec fn tag_text(fs: Seq<(Seq<char>, JVal)>, color: bool) -> Seq<char> {
    match value_of(fs, "context.processId"@) {
        Some(p) => {
            let p6 = p.take(
                if p.len() < 6 {
                    p.len() as int
                } else {
                    6
                },
            );
            " [p="@ + pad_right(sgr(color, "1"@, p6), 6) + "]"@
        },
        None => match value_of(fs, "context.requestId"@) {
            Some(q) => {
                let q8 = q.take(
                    if q.len() < 8 {
                        q.len() as int
                    } else {
                        8
                    },
                );
                let styled = if color {
                    random_color_spec(q8) + pad_right(q8, 8) + "\x1b[0m"@
                } else {
                    pad_right(q8, 8)
                };
                " ["@ + styled + "]"@
            },
            None => Seq::empty(),
        },
    }
}

/// The highlight code for the extra field at a place: the palette cycles
/// every three.
pub open spec fn palette(i: int) -> Seq<char> {
    if i % 3 == 0 {
        "90"@
    } else if i % 3 == 1 {
        "96"@
    } else {
        "95"@
    }
}

/// The bracketed extra fields, from place `i` of the configured paths on.
pub open spec fn extras_text(
    fs: Seq<(Seq<char>, JVal)>,
    extra: Seq<String>,
    i: int,
    color: bool,
) -> Seq<char>
    decreases extra.len() - i,
{
    if i < 0 || i >= extra.len() {
        Seq::empty()
    } else {
        let item = match value_of(fs, extra[i]@) {
            Some(t) => " ["@ + sgr(color, palette(i), t) + "]"@,
            None => " []"@,
        };
        item + extras_text(fs, extra, i + 1, color)
    }
}

/// The rendered message lines from place `i` on: every line is indented
/// one space, continuation lines four more.
pub open spec fn msg_lines_text(
    lines: Seq<Seq<char>>,
    i: int,
    color: bool,
    code: Seq<char>,
) -> Seq<char>
    decreases lines.len() - i,
{
    if i < 0 || i >= lines.len() {
        Seq::empty()
    } else {
        let content = if i == 0 {
            lines[i]
        } else {
            "    "@ + lines[i]
        };
        " "@ + sgr(color, code, content) + "\n"@ + msg_lines_text(lines, i + 1, color, code)
    }
}

/// The full rendered form of one log record: the timestamp (with `Z` in
/// UTC), the identity tag, the extra fields, the padded severity, the
/// message lines, and the verbose dump when asked for.
pub open spec fn print_log(l: crate::record::RecM, cfg: PrintConfig) -> Seq<char> {
    let offset = cfg.tz_spec();
    let codes = sev_codes(rank_of_text(l.severity));
    let timepart = sgr(cfg.color, "32"@, crate::time::civil_text(l.time.secs, l.time.nanos, offset))
        + (if !cfg.is_local_timezone {
        sgr(cfg.color, "32"@, "Z"@)
    } else {
        Seq::empty()
    });
    let tags = tag_text(l.fields, cfg.color);
    let extras = extras_text(l.fields, cfg.extra@, 0, cfg.color);
    let sev = " "@ + pad_right(sgr(cfg.color, "1;"@ + codes.0, upper_seq(l.severity)), 7);
    let msgtext = message_text(l.message, cfg.oneline_maxlength);
    let msgpart = msg_lines_text(split_lines(msgtext), 0, cfg.color, codes.1);
    let verbosepart = if cfg.verbose {
        dump_map(l.fields, "  "@, l.message_key, cfg.color, fields_depth_s(l.fields, 0) + 1)
    } else {
        Seq::empty()
    };
    timepart + tags + extras + sev + msgpart + verbosepart
}

impl LogLine {
    /// Render this record, as `print_log` describes.
    #[verifier::rlimit(100)]
    pub fn print(&self, config: &PrintConfig) -> (r: String)
        requires
            self.time.wf(),
            config.wf(),
        ensures
            r@ == print_log(self.model(), *config),
    {
        let ghost l = self.model();
        let mut out: Vec<char> = Vec::new();
        // timestamp
        let offset = config.tz();
        let t = crate::time::format_civil(self.time.secs, self.time.nanos, offset);
        let tv = to_chars(t.as_str());
        push_sgr(&mut out, config.color, "32", &tv);
        if !config.is_local_timezone {
            let z = to_chars("Z");
            push_sgr(&mut out, config.color, "32", &z);
        }
        let ghost timepart = sgr(config.color, "32"@, crate::time::civil_text(
            l.time.secs,
            l.time.nanos,
            config.tz_spec(),
        )) + (if !config.is_local_timezone {
            sgr(config.color, "32"@, "Z"@)
        } else {
            Seq::<char>::empty()
        });
        proof {
            assert(out@ =~= timepart);
        }
        // identity tag
        let pid_key = to_chars("context.processId");
        match value_of_exec(&self.parsed_map, &pid_key) {
            Some(p) => {
                let keep = if p.len() < 6 {
                    p.len()
                } else {
                    6
                };
                let p6 = crate::parser::copy_range(&p, 0, keep);
                push_lit(&mut out, " [p=");
                let mut styled: Vec<char> = Vec::new();
                push_sgr(&mut styled, config.color, "1", &p6);
                push_padded(&mut out, &styled, 6);
                push_lit(&mut out, "]");
                proof {
                    assert(out@ =~= timepart + tag_text(l.fields, config.color));
                }
            },
            None => {
                let rid_key = to_chars("context.requestId");
                match value_of_exec(&self.parsed_map, &rid_key) {
                    Some(q) => {
                        let keep = if q.len() < 8 {
                            q.len()
                        } else {
                            8
                        };
                        let q8 = crate::parser::copy_range(&q, 0, keep);
                        push_lit(&mut out, " [");
                        if config.color {
                            let c = random_color(&q8);
                            push_all(&mut out, &c);
                            push_padded(&mut out, &q8, 8);
                            push_lit(&mut out, "\x1b[0m");
                        } else {
                            push_padded(&mut out, &q8, 8);
                        }
                        push_lit(&mut out, "]");
                        proof {
                            assert(out@ =~= timepart + tag_text(l.fields, config.color));
                        }
                    },
                    None => {
                        proof {
                            assert(out@ =~= timepart + tag_text(l.fields, config.color));
                        }
                    },
                }
            },
        }
        let ghost head1 = timepart + tag_text(l.fields, config.color);
        // extra fields
        let mut i: usize = 0;
        proof {
            assert(out@ + extras_text(l.fields, config.extra@, 0, config.color) =~= head1
                + extras_text(l.fields, config.extra@, 0, config.color));
        }
        while i < config.extra.len()
            invariant
                i <= config.extra@.len(),
                l == self.model(),
                head1 + extras_text(l.fields, config.extra@, 0, config.color) == out@
                    + extras_text(l.fields, config.extra@, i as int, config.color),
            decreases config.extra@.len() - i,
        {
            let ghost pre = out@;
            let path = to_chars(config.extra[i].as_str());
            proof {
                assert(path@ == config.extra@[i as int]@);
            }
            let code: &str = match i % 3 {
                0 => "90",
                1 => "96",
                _ => "95",
            };
            proof {
                assert(code@ == palette(i as int));
            }
            match value_of_exec(&self.parsed_map, &path) {
                Some(t) => {
                    push_lit(&mut out, " [");
                    push_sgr(&mut out, config.color, code, &t);
                    push_lit(&mut out, "]");
                    proof {
                        let item = " ["@ + sgr(config.color, palette(i as int), t@) + "]"@;
                        assert(out@ =~= pre + item);
                    }
                },
                None => {
                    push_lit(&mut out, " []");
                },
            }
            proof {
                let rest = extras_text(l.fields, config.extra@, i + 1, config.color);
                assert(out@ + rest =~= pre + extras_text(
                    l.fields,
                    config.extra@,
                    i as int,
                    config.color,
                ));
            }
            i += 1;
        }
        proof {
            assert(extras_text(l.fields, config.extra@, config.extra@.len() as int, config.color)
                =~= Seq::<char>::empty());
            assert(out@ + Seq::<char>::empty() =~= out@);
        }
        let ghost head2 = head1 + extras_text(l.fields, config.extra@, 0, config.color);
        // severity
        let rank = self.severity();
        let sevcode: &str = match rank {
            Severity::Tracing => "1;90",
            Severity::Debug => "1;90",
            Severity::Info => "1;90",
            Severity::Warning => "1;33",
            Severity::Error => "1;31",
            Severity::Fatal => "1;35",
        };
        let msgcode: &str = match rank {
            Severity::Tracing => "90",
            Severity::Debug => "90",
            Severity::Info => "37",
            Severity::Warning => "33",
            Severity::Error => "31",
            Severity::Fatal => "35",
        };
        proof {
            assert(sevcode@ == "1;"@ + sev_codes(rank_of_text(l.severity)).0) by {
                reveal_strlit("1;90");
                reveal_strlit("1;33");
                reveal_strlit("1;31");
                reveal_strlit("1;35");
                reveal_strlit("1;");
                reveal_strlit("90");
                reveal_strlit("33");
                reveal_strlit("31");
                reveal_strlit("35");
                assert(sevcode@ =~= "1;"@ + sev_codes(rank_of_text(l.severity)).0);
            }
            assert(msgcode@ == sev_codes(rank_of_text(l.severity)).1);
        }
        push_lit(&mut out, " ");
        let upper = crate::textutil::upper_chars(&self.severity);
        let mut sevstyled: Vec<char> = Vec::new();
        push_sgr(&mut sevstyled, config.color, sevcode, &upper);
        push_padded(&mut out, &sevstyled, 7);
        proof {
            assert(out@ =~= head2 + (" "@ + pad_right(
                sgr(config.color, "1;"@ + sev_codes(rank_of_text(l.severity)).0, upper_seq(
                    l.severity,
                )),
                7,
            )));
        }
        let ghost head3 = head2 + (" "@ + pad_right(
            sgr(config.color, "1;"@ + sev_codes(rank_of_text(l.severity)).0, upper_seq(l.severity)),
            7,
        ));
        // message lines
        let (mkey, msg) = self.get_message(config);
        let lines = split_lines_exec(&msg);
        let ghost lns = split_lines(message_text(l.message, config.oneline_maxlength));
        let mut li: usize = 0;
        proof {
            assert(out@ + msg_lines_text(lns, 0, config.color, msgcode@) =~= head3
                + msg_lines_text(lns, 0, config.color, msgcode@));
        }
        while li < lines.len()
            invariant
                li <= lines@.len(),
                l == self.model(),
                lines@.len() == lns.len(),
                forall|t: int| 0 <= t < lines@.len() ==> lines@[t]@ == lns[t],
                msgcode@ == sev_codes(rank_of_text(l.severity)).1,
                head3 + msg_lines_text(lns, 0, config.color, msgcode@) == out@ + msg_lines_text(
                    lns,
                    li as int,
                    config.color,
                    msgcode@,
                ),
            decreases lines@.len() - li,
        {
            let ghost pre = out@;
            push_lit(&mut out, " ");
            let content = if li == 0 {
                crate::record::clone_chars(&lines[li])
            } else {
                let mut c = to_chars("    ");
                let mut tail = crate::record::clone_chars(&lines[li]);
                c.append(&mut tail);
                c
            };
            proof {
                if li == 0 {
                    assert(content@ == lns[li as int]);
                } else {
                    assert(content@ =~= "    "@ + lns[li as int]);
                }
            }
            push_sgr(&mut out, config.color, msgcode, &content);
            push_lit(&mut out, "\n");
            proof {
                let cspec: Seq<char> = if li == 0 {
                    lns[li as int]
                } else {
                    "    "@ + lns[li as int]
                };
                assert(out@ =~= pre + (" "@ + sgr(config.color, msgcode@, cspec) + "\n"@));
                let rest = msg_lines_text(lns, li + 1, config.color, msgcode@);
                assert(out@ + rest =~= pre + msg_lines_text(
                    lns,
                    li as int,
                    config.color,
                    msgcode@,
                ));
            }
            li += 1;
        }
        proof {
            assert(msg_lines_text(lns, lns.len() as int, config.color, msgcode@)
                =~= Seq::<char>::empty());
            assert(out@ + Seq::<char>::empty() =~= out@);
        }
        // verbose dump
        if config.verbose {
            let fuel = fields_depth(&self.parsed_map);
            let ind = to_chars("  ");
            dump_exec(&mut out, &self.parsed_map, &ind, &mkey, config.color, fuel + 1);
        }
        proof {
            assert(out@ =~= print_log(l, *config));
        }
        chars_to_string(&out)
    }
}

/// What rendering an output yields: raw text unchanged, a record through
/// `print_log`, and nothing for `Empty`.
pub open spec fn output_text(o: crate::feeder::OutM, cfg: PrintConfig) -> Seq<char> {
    match o {
        crate::feeder::OutM::Empty => Seq::empty(),
        crate::feeder::OutM::Text(s) => s,
        crate::feeder::OutM::Log(rm) => print_log(rm, cfg),
    }
}

impl crate::feeder::ParserOutput {
    /// Render this output, as `output_text` describes: raw text passes
    /// through unchanged.
    pub fn print(&self, config: &PrintConfig) -> (r: String)
        requires
            self matches crate::feeder::ParserOutput::Log(l) ==> l.time.wf(),
            config.wf(),
        ensures
            r@ == output_text(self.model(), *config),
    {
        match self {
            crate::feeder::ParserOutput::Empty => String::new(),
            crate::feeder::ParserOutput::Text(s) => {
                let c = to_chars(s.as_str());
                chars_to_string(&c)
            },
            crate::feeder::ParserOutput::Log(l) => l.print(config),
        }
    }
}

/// Whether an output passes the severity filter: raw text always does, a
/// record only at or above the minimum, and `Empty` never renders.
pub open spec fn emit_spec(o: crate::feeder::OutM, min: Option<Severity>) -> bool {
    match o {
        crate::feeder::OutM::Empty => false,
        crate::feeder::OutM::Text(_) => true,
        crate::feeder::OutM::Log(rm) => match min {
            None => true,
            Some(m) => rank_of_text(rm.severity).rank_spec() >= m.rank_spec(),
        },
    }
}

/// Apply the severity filter, as `emit_spec` describes.
pub fn should_emit(o: &crate::feeder::ParserOutput, min: &Option<Severity>) -> (r: bool)
    ensures
        r == emit_spec(o.model(), *min),
{
    match o {
        crate::feeder::ParserOutput::Empty => false,
        crate::feeder::ParserOutput::Text(_) => true,
        crate::feeder::ParserOutput::Log(l) => match min {
            None => true,
            Some(m) => l.severity().rank() >= m.rank(),
        },
    }
}
} // verus!
