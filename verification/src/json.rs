//! The JSON-like value model: an executable value tree and its ghost mirror.
use vstd::prelude::*;

verus! {

broadcast use vstd::std_specs::vec::axiom_vec_index_decreases, vstd::seq_lib::group_seq_properties;

/// A parsed JSON-like value. Numbers keep the raw source token, so no
/// precision is lost and their textual form is exactly what was read.
#[derive(Debug)]
pub enum JsonValue {
    Null,
    Bool(bool),
    Num(Vec<char>),
    Str(Vec<char>),
    Array(Vec<JsonValue>),
    Object(Vec<(Vec<char>, JsonValue)>),
}

/// Ghost mirror of `JsonValue`, over sequences.
pub enum JVal {
    Null,
    Bool(bool),
    Num(Seq<char>),
    Str(Seq<char>),
    Arr(Seq<JVal>),
    Obj(Seq<(Seq<char>, JVal)>),
}

impl JsonValue {
    /// The ghost value this executable tree stands for.
    pub open spec fn model(self) -> JVal
        decreases self,
    {
        match self {
            JsonValue::Null => JVal::Null,
            JsonValue::Bool(b) => JVal::Bool(b),
            JsonValue::Num(t) => JVal::Num(t@),
            JsonValue::Str(t) => JVal::Str(t@),
            JsonValue::Array(items) => JVal::Arr(items_model(items)),
            JsonValue::Object(fields) => JVal::Obj(fields_model(fields)),
        }
    }
}

/// Ghost mirror of an item list.
pub open spec fn items_model(items: Vec<JsonValue>) -> Seq<JVal>
    decreases items,
{
    Seq::new(
        items@.len(),
        |i: int|
            if 0 <= i < items.len() {
                items[i].model()
            } else {
                JVal::Null
            },
    )
}

/// Ghost mirror of a field list.
pub open spec fn fields_model(fields: Vec<(Vec<char>, JsonValue)>) -> Seq<(Seq<char>, JVal)>
    decreases fields,
{
    Seq::new(
        fields@.len(),
        |i: int|
            if 0 <= i < fields.len() {
                (fields[i].0@, fields[i].1.model())
            } else {
                (Seq::<char>::empty(), JVal::Null)
            },
    )
}

/// The value under the key, if any.
pub open spec fn obj_get(fs: Seq<(Seq<char>, JVal)>, k: Seq<char>) -> Option<JVal>
    decreases fs.len(),
{
    if fs.len() == 0 {
        None
    } else if fs[0].0 == k {
        Some(fs[0].1)
    } else {
        obj_get(fs.drop_first(), k)
    }
}

/// Replace the value under the key, keeping its place, or append the pair.
pub open spec fn upsert(
    fs: Seq<(Seq<char>, JVal)>,
    k: Seq<char>,
    v: JVal,
) -> Seq<(Seq<char>, JVal)>
    decreases fs.len(),
{
    if fs.len() == 0 {
        seq![(k, v)]
    } else if fs[0].0 == k {
        seq![(k, v)] + fs.drop_first()
    } else {
        seq![fs[0]] + upsert(fs.drop_first(), k, v)
    }
}

/// Fold a raw pair list into one with unique keys: a later duplicate key
/// replaces the earlier value but keeps the earlier place.
pub open spec fn dedup_rec(
    acc: Seq<(Seq<char>, JVal)>,
    rest: Seq<(Seq<char>, JVal)>,
) -> Seq<(Seq<char>, JVal)>
    decreases rest.len(),
{
    if rest.len() == 0 {
        acc
    } else {
        dedup_rec(upsert(acc, rest[0].0, rest[0].1), rest.drop_first())
    }
}

/// The unique-key form of a raw pair list.
pub open spec fn dedup_fields(fs: Seq<(Seq<char>, JVal)>) -> Seq<(Seq<char>, JVal)> {
    dedup_rec(Seq::empty(), fs)
}

/// Errors from reading a value as something it is not.
#[derive(PartialEq, Eq, Structural, Clone, Copy, Debug)]
pub enum JsonError {
    NotAnObject,
    KeyMissing,
    NotNumeric,
    NotAString,
}

/// Powers of ten.
pub open spec fn pow10(e: nat) -> int
    decreases e,
{
    if e == 0 {
        1
    } else {
        10 * pow10((e - 1) as nat)
    }
}

/// Value of a decimal digit sequence.
pub open spec fn digits_val(s: Seq<char>) -> int
    decreases s.len(),
{
    if s.len() == 0 {
        0
    } else {
        digits_val(s.drop_last()) * 10 + (s.last() as u32 - 48)
    }
}

/// Value of the digits of an exponent, with growth stopped once it is far
/// beyond any magnitude a buffer could shift.
pub open spec fn exp_digits_sat(s: Seq<char>) -> int
    decreases s.len(),
{
    if s.len() == 0 {
        0
    } else {
        let p = exp_digits_sat(s.drop_last());
        if p >= 1000000000000000000000000000000 {
            p
        } else {
            p * 10 + (s.last() as u32 - 48)
        }
    }
}

/// Count of leading `'0'` characters.
pub open spec fn lead_zeros(s: Seq<char>) -> nat
    decreases s.len(),
{
    if s.len() > 0 && s[0] == '0' {
        (1 + lead_zeros(s.drop_first())) as nat
    } else {
        0
    }
}

/// The signed exponent of a number token, starting at `fe` (the end of the
/// mantissa), or zero when none is present.
pub open spec fn exp_part_val(t: Seq<char>, fe: nat) -> int {
    if fe < t.len() && (t[fe as int] == 'e' || t[fe as int] == 'E') {
        let q: nat = if fe + 1 < t.len() && (t[(fe + 1) as int] == '+' || t[(fe + 1) as int] == '-') {
            fe + 2
        } else {
            fe + 1
        };
        let mag = exp_digits_sat(t.subrange(q as int, (q + crate::parser::digits_len(t, q)) as int));
        if fe + 1 < t.len() && t[(fe + 1) as int] == '-' {
            -mag
        } else {
            mag
        }
    } else {
        0
    }
}

/// A digit sequence stretched or cut to exactly `p` digits, padding with
/// zeros on the right.
pub open spec fn pad_digits(sig: Seq<char>, p: nat) -> Seq<char> {
    if p <= sig.len() {
        sig.take(p as int)
    } else {
        sig + Seq::new((p - sig.len()) as nat, |i: int| '0')
    }
}

/// The integer a number token stands for, truncated toward zero and
/// saturated at the `i64` range: the significant digits, with the decimal
/// point moved by the exponent, cut at the point.
pub open spec fn num_int(t: Seq<char>) -> i64 {
    let b: nat = if t.len() > 0 && (t[0] == '-' || t[0] == '+') {
        1
    } else {
        0
    };
    let neg = t.len() > 0 && t[0] == '-';
    let ie = b + crate::parser::digits_len(t, b);
    let fs: nat = if ie < t.len() && t[ie as int] == '.' {
        ie + 1
    } else {
        ie
    };
    let fe = fs + crate::parser::digits_len(t, fs);
    let ds = t.subrange(b as int, ie as int) + t.subrange(fs as int, fe as int);
    let ev = exp_part_val(t, fe);
    let z = lead_zeros(ds);
    let point = ie - b + ev - z;
    if z == ds.len() {
        0
    } else if point <= 0 {
        0
    } else if point > 19 {
        if neg {
            i64::MIN
        } else {
            i64::MAX
        }
    } else {
        let m = digits_val(pad_digits(ds.skip(z as int), point as nat));
        if neg {
            if m > 9223372036854775808 {
                i64::MIN
            } else {
                (-m) as i64
            }
        } else {
            if m > 9223372036854775807 {
                i64::MAX
            } else {
                m as i64
            }
        }
    }
}

/// Character-wise equality of two texts.
pub fn eq_chars(a: &Vec<char>, b: &Vec<char>) -> (r: bool)
    ensures
        r == (a@ == b@),
{
    if a.len() != b.len() {
        proof {
            assert(a@ != b@);
        }
        return false;
    }
    let mut i: usize = 0;
    while i < a.len()
        invariant
            i <= a.len(),
            a.len() == b.len(),
            forall|j: int| 0 <= j < i ==> a@[j] == b@[j],
        decreases a.len() - i,
    {
        if a[i] != b[i] {
            proof {
                assert(a@[i as int] != b@[i as int]);
            }
            return false;
        }
        i += 1;
    }
    proof {
        assert(a@ =~= b@);
    }
    true
}

/// Insert a pair into a unique-key field list as `upsert` describes.
pub fn upsert_exec(fields: &mut Vec<(Vec<char>, JsonValue)>, k: Vec<char>, v: JsonValue)
    ensures
        fields_model(*final(fields)) == upsert(fields_model(*old(fields)), k@, v.model()),
{
    let ghost oldm = fields_model(*fields);
    proof {
        assert(oldm.len() == fields@.len());
    }
    let mut i: usize = 0;
    while i < fields.len()
        invariant
            i <= fields.len(),
            *fields == *old(fields),
            oldm == fields_model(*fields),
            oldm.len() == fields@.len(),
            forall|j: int| 0 <= j < i ==> fields_model(*fields)[j].0 != k@,
        decreases fields.len() - i,
    {
        if eq_chars(&fields[i].0, &k) {
            proof {
                assert(i < fields@.len());
                assert(oldm[i as int].0 == k@);
            }
            let ghost kk = k@;
            let ghost vv = v.model();
            fields[i] = (k, v);
            proof {
                lemma_upsert_found(oldm, kk, vv, i as int);
                assert(fields_model(*fields) =~= oldm.update(i as int, (kk, vv)));
            }
            return ;
        }
        i += 1;
    }
    fields.push((k, v));
    proof {
        lemma_upsert_missing(oldm, k@, v.model());
        assert(fields_model(*fields) =~= upsert(oldm, k@, v.model()));
    }
}

/// When the key sits first at `i`, `upsert` updates place `i` in place.
proof fn lemma_upsert_found(fs: Seq<(Seq<char>, JVal)>, k: Seq<char>, v: JVal, i: int)
    requires
        0 <= i < fs.len(),
        fs[i].0 == k,
        forall|j: int| 0 <= j < i ==> fs[j].0 != k,
    ensures
        upsert(fs, k, v) =~= fs.update(i, (k, v)),
    decreases fs.len(),
{
    if i == 0 {
        assert(upsert(fs, k, v) =~= fs.update(0, (k, v)));
    } else {
        lemma_upsert_found(fs.drop_first(), k, v, i - 1);
        assert(upsert(fs, k, v) =~= seq![fs[0]] + upsert(fs.drop_first(), k, v));
        assert(seq![fs[0]] + fs.drop_first().update(i - 1, (k, v)) =~= fs.update(i, (k, v)));
    }
}

/// When the key is absent, `upsert` appends the pair.
proof fn lemma_upsert_missing(fs: Seq<(Seq<char>, JVal)>, k: Seq<char>, v: JVal)
    requires
        forall|j: int| 0 <= j < fs.len() ==> fs[j].0 != k,
    ensures
        upsert(fs, k, v) =~= fs.push((k, v)),
    decreases fs.len(),
{
    if fs.len() > 0 {
        lemma_upsert_missing(fs.drop_first(), k, v);
        assert(seq![fs[0]] + fs.drop_first().push((k, v)) =~= fs.push((k, v)));
    }
}

/// Fold a raw pair list into a unique-key one, as `dedup_fields` describes.
pub fn dedup_exec(raw: Vec<(Vec<char>, JsonValue)>) -> (out: Vec<(Vec<char>, JsonValue)>)
    ensures
        fields_model(out) == dedup_fields(fields_model(raw)),
{
    let mut out: Vec<(Vec<char>, JsonValue)> = Vec::new();
    let mut rest = raw;
    proof {
        assert(fields_model(out) =~= Seq::<(Seq<char>, JVal)>::empty());
    }
    let ghost total = fields_model(rest);
    let ghost done: Seq<(Seq<char>, JVal)> = Seq::empty();
    while rest.len() > 0
        invariant
            dedup_fields(total) == dedup_rec(fields_model(out), fields_model(rest)),
        decreases rest.len(),
    {
        let ghost pre_out = fields_model(out);
        let ghost pre_rest = fields_model(rest);
        let (k, v) = rest.remove(0);
        upsert_exec(&mut out, k, v);
        proof {
            assert(fields_model(rest) =~= pre_rest.drop_first());
            assert(fields_model(out) == upsert(pre_out, pre_rest[0].0, pre_rest[0].1));
        }
    }
    out
}


/// Every character a `digits_len` scan covers is a digit.
proof fn lemma_digits_are_digits(s: Seq<char>, i: nat)
    ensures
        forall|k: int| i <= k < i + crate::parser::digits_len(s, i) ==> crate::parser::is_digit(
            #[trigger] s[k],
        ),
    decreases s.len() - i,
{
    if i < s.len() && crate::parser::is_digit(s[i as int]) {
        lemma_digits_are_digits(s, i + 1);
    }
}

/// A sequence of decimal digits is worth less than ten to its length.
proof fn lemma_digits_val_bound(s: Seq<char>)
    requires
        forall|k: int| 0 <= k < s.len() ==> crate::parser::is_digit(#[trigger] s[k]),
    ensures
        0 <= digits_val(s) < pow10(s.len()),
    decreases s.len(),
{
    if s.len() > 0 {
        lemma_digits_val_bound(s.drop_last());
    }
}

/// The signed exponent written at `fe`, as `exp_part_val` describes.
fn exp_value(t: &Vec<char>, fe: usize) -> (ev: i128)
    requires
        fe <= t@.len(),
    ensures
        ev == exp_part_val(t@, fe as nat),
        -10000000000000000000000000000000 <= ev <= 10000000000000000000000000000000,
{
    let n = t.len();
    if fe < n && (t[fe] == 'e' || t[fe] == 'E') {
        let q = if fe + 1 < n && (t[fe + 1] == '+' || t[fe + 1] == '-') {
            fe + 2
        } else {
            fe + 1
        };
        let qe = crate::parser::e_digits(t, if q <= n { q } else { n });
        proof {
            assert(q <= n);
            lemma_digits_are_digits(t@, q as nat);
        }
        let mut mag: i128 = 0;
        let mut k = q;
        while k < qe
            invariant
                q <= k <= qe <= t@.len(),
                mag == exp_digits_sat(t@.subrange(q as int, k as int)),
                0 <= mag <= 10000000000000000000000000000000,
                forall|j: int| q <= j < qe ==> crate::parser::is_digit(#[trigger] t@[j]),
            decreases qe - k,
        {
            let ghost pre = t@.subrange(q as int, k as int);
            proof {
                assert(crate::parser::is_digit(t@[k as int]));
            }
            if mag < 1000000000000000000000000000000 {
                mag = mag * 10 + ((t[k] as u32) as i128 - 48);
            }
            proof {
                assert(t@.subrange(q as int, k + 1).drop_last() =~= pre);
                assert(t@.subrange(q as int, k + 1).last() == t@[k as int]);
            }
            k += 1;
        }
        proof {
            assert(t@.subrange(q as int, qe as int) == t@.subrange(
                q as int,
                (q + crate::parser::digits_len(t@, q as nat)) as int,
            ));
        }
        if fe + 1 < n && t[fe + 1] == '-' {
            -mag
        } else {
            mag
        }
    } else {
        0
    }
}

/// Count of leading zero characters, as `lead_zeros` describes.
fn count_lead_zeros(ds: &Vec<char>) -> (z: usize)
    ensures
        z == lead_zeros(ds@),
        z <= ds@.len(),
{
    let mut z: usize = 0;
    while z < ds.len() && ds[z] == '0'
        invariant
            z <= ds@.len(),
            lead_zeros(ds@) == z + lead_zeros(ds@.skip(z as int)),
        decreases ds@.len() - z,
    {
        proof {
            assert(ds@.skip(z as int)[0] == ds@[z as int]);
            assert(ds@.skip(z as int).drop_first() =~= ds@.skip(z + 1));
        }
        z += 1;
    }
    proof {
        if z < ds@.len() {
            assert(ds@.skip(z as int)[0] == ds@[z as int]);
        }
        assert(lead_zeros(ds@.skip(z as int)) == 0);
    }
    z
}

/// Value of the first `p` significant digits, zero-padded on the right, as
/// `digits_val` of `pad_digits` describes.
fn padded_value(ds: &Vec<char>, z: usize, p: usize) -> (m: u128)
    requires
        z < ds@.len(),
        1 <= p <= 19,
        forall|j: int| 0 <= j < ds@.len() ==> crate::parser::is_digit(#[trigger] ds@[j]),
    ensures
        m == digits_val(pad_digits(ds@.skip(z as int), p as nat)),
        m < 10000000000000000000,
{
    let ghost padded = pad_digits(ds@.skip(z as int), p as nat);
    proof {
        assert(padded.len() == p);
        assert(forall|k: int| 0 <= k < padded.len() ==> crate::parser::is_digit(
            #[trigger] padded[k],
        ));
        lemma_pow10_19();
    }
    let mut m: u128 = 0;
    let mut k: usize = 0;
    while k < p
        invariant
            k <= p <= 19,
            z < ds@.len(),
            padded == pad_digits(ds@.skip(z as int), p as nat),
            forall|j: int| 0 <= j < padded.len() ==> crate::parser::is_digit(#[trigger] padded[j]),
            padded.len() == p,
            m == digits_val(padded.take(k as int)),
            0 <= m < pow10(k as nat),
            pow10(19) == 10000000000000000000,
        decreases p - k,
    {
        let c = if k < ds.len() - z {
            ds[z + k]
        } else {
            '0'
        };
        proof {
            assert(padded[k as int] == c);
            assert(padded.take(k + 1).drop_last() =~= padded.take(k as int));
            assert(padded.take(k + 1).last() == c);
            lemma_pow10_mono(k as nat);
        }
        m = m * 10 + ((c as u32) as u128 - 48);
        k += 1;
    }
    proof {
        assert(padded.take(p as int) =~= padded);
        lemma_pow10_mono_le(p as nat);
    }
    m
}

/// The integer the number token stands for, as `num_int` describes.
pub fn num_int_exec(t: &Vec<char>) -> (r: i64)
    ensures
        r == num_int(t@),
{
    let n = t.len();
    let (b, neg): (usize, bool) = if n > 0 && (t[0] == '-' || t[0] == '+') {
        (1, t[0] == '-')
    } else {
        (0, false)
    };
    let ie = crate::parser::e_digits(t, b);
    let fs = if ie < n && t[ie] == '.' {
        ie + 1
    } else {
        ie
    };
    let fe = crate::parser::e_digits(t, fs);
    let mut ds = crate::parser::copy_range(t, b, ie);
    let mut frac = crate::parser::copy_range(t, fs, fe);
    ds.append(&mut frac);
    proof {
        lemma_digits_are_digits(t@, b as nat);
        lemma_digits_are_digits(t@, fs as nat);
        assert(forall|k: int| 0 <= k < ds@.len() ==> crate::parser::is_digit(#[trigger] ds@[k]));
    }
    let ev = exp_value(t, fe);
    let z = count_lead_zeros(&ds);
    let point: i128 = ie as i128 - b as i128 + ev - z as i128;
    if z == ds.len() {
        return 0;
    }
    if point <= 0 {
        return 0;
    }
    if point > 19 {
        return if neg {
            i64::MIN
        } else {
            i64::MAX
        };
    }
    let m = padded_value(&ds, z, point as usize);
    if neg {
        if m > 9223372036854775808 {
            i64::MIN
        } else {
            (-(m as i128)) as i64
        }
    } else {
        if m > 9223372036854775807 {
            i64::MAX
        } else {
            m as i64
        }
    }
}

/// Ten to a power at most nineteen stays under ten to the nineteenth.
proof fn lemma_pow10_mono_le(p: nat)
    requires
        p <= 19,
    ensures
        pow10(p) <= pow10(19),
    decreases 19 - p,
{
    lemma_pow10_pos(p);
    if p < 19 {
        lemma_pow10_mono(p);
        lemma_pow10_mono_le((p + 1) as nat);
    }
}

/// Ten to a power at most nineteen is monotone in the exponent.
proof fn lemma_pow10_mono(k: nat)
    requires
        k < 19,
    ensures
        pow10(k) * 10 == pow10((k + 1) as nat),
        pow10((k + 1) as nat) <= pow10(19),
        pow10(k) >= 1,
    decreases 19 - k,
{
    lemma_pow10_pos(k);
    if k + 1 < 19 {
        lemma_pow10_mono((k + 1) as nat);
    }
}

/// Ten to any power is at least one.
proof fn lemma_pow10_pos(k: nat)
    ensures
        pow10(k) >= 1,
    decreases k,
{
    if k > 0 {
        lemma_pow10_pos((k - 1) as nat);
    }
}

/// The concrete value of ten to the nineteenth.
proof fn lemma_pow10_19()
    ensures
        pow10(19) == 10000000000000000000,
{
    reveal_with_fuel(pow10, 21);
}

impl JsonValue {
    /// The value under `key` when this is an object that carries it; an
    /// error naming what went wrong otherwise.
    pub fn map_value(&self, key: &str) -> (r: Result<&JsonValue, JsonError>)
        ensures
            match self.model() {
                JVal::Obj(fs) => match r {
                    Ok(v) => obj_get(fs, key@) == Some(v.model()),
                    Err(e) => e == JsonError::KeyMissing && obj_get(fs, key@) is None,
                },
                _ => r == Err::<&JsonValue, JsonError>(JsonError::NotAnObject),
            },
    {
        let fields = match self {
            JsonValue::Object(fields) => fields,
            _ => {
                return Err(JsonError::NotAnObject);
            },
        };
        let k = crate::textutil::to_chars(key);
        let mut i: usize = 0;
        while i < fields.len()
            invariant
                i <= fields@.len(),
                k@ == key@,
                self is Object && self->Object_0 == *fields,
                forall|j: int| 0 <= j < i ==> fields_model(*fields)[j].0 != key@,
            decreases fields@.len() - i,
        {
            if eq_chars(&fields[i].0, &k) {
                proof {
                    lemma_obj_get_at(fields_model(*fields), key@, i as int);
                }
                return Ok(&fields[i].1);
            }
            i += 1;
        }
        proof {
            lemma_obj_get_missing(fields_model(*fields), key@);
        }
        Err(JsonError::KeyMissing)
    }

    /// The integer a numeric value stands for (truncated toward zero,
    /// saturated at the `i64` range); an error when not numeric.
    pub fn int_value(&self) -> (r: Result<i64, JsonError>)
        ensures
            match self.model() {
                JVal::Num(tt) => r == Ok::<i64, JsonError>(num_int(tt)),
                _ => r == Err::<i64, JsonError>(JsonError::NotNumeric),
            },
    {
        match self {
            JsonValue::Num(tv) => Ok(num_int_exec(tv)),
            _ => Err(JsonError::NotNumeric),
        }
    }

    /// The text of a string value; an error when not a string.
    pub fn str_value(&self) -> (r: Result<String, JsonError>)
        ensures
            match self.model() {
                JVal::Str(tt) => r matches Ok(s) && s@ == tt,
                _ => r == Err::<String, JsonError>(JsonError::NotAString),
            },
    {
        match self {
            JsonValue::Str(tv) => Ok(crate::textutil::chars_to_string(tv)),
            _ => Err(JsonError::NotAString),
        }
    }
}

/// When the key first occurs at `i`, the lookup yields that field.
pub proof fn lemma_obj_get_at(fs: Seq<(Seq<char>, JVal)>, k: Seq<char>, i: int)
    requires
        0 <= i < fs.len(),
        fs[i].0 == k,
        forall|j: int| 0 <= j < i ==> fs[j].0 != k,
    ensures
        obj_get(fs, k) == Some(fs[i].1),
    decreases fs.len(),
{
    if i > 0 {
        lemma_obj_get_at(fs.drop_first(), k, i - 1);
    }
}

/// When no field carries the key, the lookup yields nothing.
pub proof fn lemma_obj_get_missing(fs: Seq<(Seq<char>, JVal)>, k: Seq<char>)
    requires
        forall|j: int| 0 <= j < fs.len() ==> fs[j].0 != k,
    ensures
        obj_get(fs, k) is None,
    decreases fs.len(),
{
    if fs.len() > 0 {
        lemma_obj_get_missing(fs.drop_first(), k);
    }
}

} // verus!
