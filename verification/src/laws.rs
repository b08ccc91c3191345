//! Library-wide laws: properties of the feeder and the severity filter,
//! stated over the same spec functions the public contracts use.
use vstd::prelude::*;

use crate::feeder::{feed, OutM};
use crate::parser::{
    digits_len, is_digit, is_ws, p_exp, p_fields, p_items, p_items_more, p_lit, p_num, p_root,
    p_str, p_value, ws_len, PRes,
};
use crate::record::{normalize_spec, RecM, Severity};
use crate::render::emit_spec;

verus! {

/// Idempotent passthrough: a chunk that can never become a JSON object
/// comes straight back as one raw-text output, and the buffer stays empty.
pub proof fn lemma_idempotent_passthrough(line: Seq<char>)
    requires
        p_root(line) is Bad,
    ensures
        feed(line).0 =~= seq![OutM::Text(line)],
        feed(line).1 =~= Seq::<char>::empty(),
{
}

/// Chunked completion: while the whole buffered text is an incomplete
/// prefix, a push yields no output and keeps the text; the push that
/// completes the object yields exactly its one record. Feeding in any
/// number of chunks thus matches feeding the text in one shot, since the
/// buffer always holds exactly the concatenation of the unresolved input.
pub proof fn lemma_chunked_completion(a: Seq<char>, b: Seq<char>, rm: RecM)
    requires
        p_root(a) is More,
        p_root(a + b) matches PRes::Done { v, n } && n == (a + b).len() && normalize_spec(v)
            == Ok::<RecM, crate::record::NormError>(rm),
    ensures
        feed(a).0 =~= Seq::<OutM>::empty(),
        feed(a).1 == a,
        feed(a + b).0 =~= seq![OutM::Log(rm)],
        feed(a + b).1 =~= Seq::<char>::empty(),
{
    let s = a + b;
    let n = p_root(s)->n;
    assert(s.len() > 0) by {
        if s.len() == 0 {
            assert(p_root(s) is More);
        }
    }
    assert(s.take(n as int) =~= s);
    let rest = s.skip(n as int);
    assert(rest =~= Seq::<char>::empty());
    assert(feed(rest) == (Seq::<OutM>::empty(), rest));
    assert(feed(s).0 =~= seq![OutM::Log(rm)] + Seq::<OutM>::empty());
    assert(seq![OutM::Log(rm)] + Seq::<OutM>::empty() =~= seq![OutM::Log(rm)]);
}

/// Fallback on bad shape: a chunk that is exactly one syntactically valid
/// object which does not normalize comes back as one raw-text output
/// holding its own source text.
pub proof fn lemma_fallback_bad_shape(line: Seq<char>)
    requires
        p_root(line) matches PRes::Done { v, n } && n == line.len() && normalize_spec(v) is Err,
    ensures
        feed(line).0 =~= seq![OutM::Text(line)],
        feed(line).1 =~= Seq::<char>::empty(),
{
    let n = p_root(line)->n;
    assert(line.len() > 0) by {
        if line.len() == 0 {
            assert(p_root(line) is More);
        }
    }
    assert(line.take(n as int) =~= line);
    let rest = line.skip(n as int);
    assert(rest =~= Seq::<char>::empty());
    assert(feed(rest) == (Seq::<OutM>::empty(), rest));
    assert(feed(line).0 =~= seq![OutM::Text(line)] + Seq::<OutM>::empty());
    assert(seq![OutM::Text(line)] + Seq::<OutM>::empty() =~= seq![OutM::Text(line)]);
}

/// Severity ranking monotonicity: the ranks order
/// Tracing < Debug < Info < Warning < Error < Fatal, raw text always
/// passes the filter, and a record passes a minimum exactly when its rank
/// is not strictly below it — so filtering drops exactly the strictly
/// lower ranks, and whatever passes a higher minimum passes every lower
/// one.
pub proof fn lemma_severity_filter_monotone(o: OutM, lo: Severity, hi: Severity)
    requires
        lo.rank_spec() <= hi.rank_spec(),
    ensures
        Severity::Tracing.rank_spec() < Severity::Debug.rank_spec()
            < Severity::Info.rank_spec() < Severity::Warning.rank_spec()
            < Severity::Error.rank_spec() < Severity::Fatal.rank_spec(),
        o matches OutM::Log(rm) ==> (emit_spec(o, Some(hi)) <==> crate::record::rank_of_text(
            rm.severity,
        ).rank_spec() >= hi.rank_spec()),
        o is Text ==> emit_spec(o, Some(hi)),
        emit_spec(o, Some(hi)) && !(o is Empty) ==> emit_spec(o, Some(lo)),
{
}


/// A whitespace scan that stops inside the text is unmoved by appending.
proof fn lemma_ws_ext(s: Seq<char>, t: Seq<char>, i: nat)
    requires
        i + ws_len(s, i) < s.len(),
    ensures
        ws_len(s + t, i) == ws_len(s, i),
    decreases s.len() - i,
{
    assert((s + t)[i as int] == s[i as int]);
    if i < s.len() && is_ws(s[i as int]) {
        lemma_ws_ext(s, t, i + 1);
    }
}

/// A digit scan that stops inside the text is unmoved by appending.
proof fn lemma_digits_ext(s: Seq<char>, t: Seq<char>, i: nat)
    requires
        i + digits_len(s, i) < s.len(),
    ensures
        digits_len(s + t, i) == digits_len(s, i),
    decreases s.len() - i,
{
    assert((s + t)[i as int] == s[i as int]);
    if i < s.len() && is_digit(s[i as int]) {
        lemma_digits_ext(s, t, i + 1);
    }
}

/// A literal that matched is unmoved by appending.
proof fn lemma_lit_ext(s: Seq<char>, t: Seq<char>, i: nat, w: Seq<char>, k: nat)
    requires
        p_lit(s, i, w, k) is Done,
    ensures
        p_lit(s + t, i, w, k) == p_lit(s, i, w, k),
    decreases w.len() - k,
{
    if k < w.len() {
        assert(i + k < s.len());
        assert((s + t)[(i + k) as int] == s[(i + k) as int]);
        lemma_lit_ext(s, t, i, w, k + 1);
    }
}

/// A string body that closed is unmoved by appending.
proof fn lemma_str_ext(s: Seq<char>, t: Seq<char>, i: nat)
    requires
        p_str(s, i) is Done,
    ensures
        p_str(s + t, i) == p_str(s, i),
    decreases s.len() - i,
{
    assert(i < s.len());
    let c = s[i as int];
    assert((s + t)[i as int] == c);
    if c == '"' {
    } else if c == '\\' {
        assert(i + 1 < s.len());
        let e = s[(i + 1) as int];
        assert((s + t)[(i + 1) as int] == e);
        if e == 'n' || e == 't' || e == '\\' || e == '"' {
            assert(p_str(s, i + 2) is Done);
            lemma_str_ext(s, t, i + 2);
        } else if e == 'u' {
            assert(i + 6 <= s.len());
            assert((s + t)[(i + 2) as int] == s[(i + 2) as int]);
            assert((s + t)[(i + 3) as int] == s[(i + 3) as int]);
            assert((s + t)[(i + 4) as int] == s[(i + 4) as int]);
            assert((s + t)[(i + 5) as int] == s[(i + 5) as int]);
            assert(p_str(s, i + 6) is Done);
            lemma_str_ext(s, t, i + 6);
        }
    } else {
        assert(p_str(s, i + 1) is Done);
        lemma_str_ext(s, t, i + 1);
    }
}

/// A number tail that ended inside the text is unmoved by appending.
proof fn lemma_exp_ext(s: Seq<char>, t: Seq<char>, start: nat, p: nat)
    requires
        start <= p,
        p_exp(s, start, p) is Done,
    ensures
        p_exp(s + t, start, p) == p_exp(s, start, p),
{
    assert(p < s.len());
    assert((s + t)[p as int] == s[p as int]);
    if s[p as int] == 'e' || s[p as int] == 'E' {
        assert(p + 1 < s.len());
        assert((s + t)[(p + 1) as int] == s[(p + 1) as int]);
        let q = if s[(p + 1) as int] == '+' || s[(p + 1) as int] == '-' {
            p + 2
        } else {
            p + 1
        };
        assert(q < s.len());
        assert((s + t)[q as int] == s[q as int]);
        let d = q + digits_len(s, q);
        assert(d < s.len());
        lemma_digits_ext(s, t, q);
        assert((s + t).subrange(start as int, d as int) =~= s.subrange(start as int, d as int));
    } else {
        assert((s + t).subrange(start as int, p as int) =~= s.subrange(start as int, p as int));
    }
}

/// A number token that ended inside the text is unmoved by appending.
proof fn lemma_num_ext(s: Seq<char>, t: Seq<char>, i: nat)
    requires
        p_num(s, i) is Done,
    ensures
        p_num(s + t, i) == p_num(s, i),
{
    assert(i < s.len());
    assert((s + t)[i as int] == s[i as int]);
    let k = if s[i as int] == '-' || s[i as int] == '+' {
        i + 1
    } else {
        i
    };
    assert(k < s.len());
    assert((s + t)[k as int] == s[k as int]);
    if is_digit(s[k as int]) {
        let m = k + digits_len(s, k);
        assert(m < s.len());
        lemma_digits_ext(s, t, k);
        assert((s + t)[m as int] == s[m as int]);
        if s[m as int] == '.' {
            let f = m + 1 + digits_len(s, m + 1);
            assert(f < s.len());
            lemma_digits_ext(s, t, m + 1);
            lemma_exp_ext(s, t, i, f);
        } else {
            lemma_exp_ext(s, t, i, m);
        }
    } else {
        assert(s[k as int] == '.');
        assert(k + 1 < s.len());
        assert((s + t)[(k + 1) as int] == s[(k + 1) as int]);
        assert(is_digit(s[(k + 1) as int]));
        let f = k + 1 + digits_len(s, k + 1);
        assert(f < s.len());
        lemma_digits_ext(s, t, k + 1);
        lemma_exp_ext(s, t, i, f);
    }
}

/// A value that parsed completely is unmoved by appending more input.
proof fn lemma_value_ext(s: Seq<char>, t: Seq<char>, i: nat)
    requires
        p_value(s, i) is Done,
    ensures
        p_value(s + t, i) == p_value(s, i),
    decreases s.len() - i, 0nat,
{
    let j = i + ws_len(s, i);
    assert(j < s.len());
    lemma_ws_ext(s, t, i);
    let c = s[j as int];
    assert((s + t)[j as int] == c);
    if c == 'n' {
        assert(p_lit(s, j, seq!['n', 'u', 'l', 'l'], 0) is Done);
        lemma_lit_ext(s, t, j, seq!['n', 'u', 'l', 'l'], 0);
    } else if c == 't' {
        assert(p_lit(s, j, seq!['t', 'r', 'u', 'e'], 0) is Done);
        lemma_lit_ext(s, t, j, seq!['t', 'r', 'u', 'e'], 0);
    } else if c == 'f' {
        assert(p_lit(s, j, seq!['f', 'a', 'l', 's', 'e'], 0) is Done);
        lemma_lit_ext(s, t, j, seq!['f', 'a', 'l', 's', 'e'], 0);
    } else if c == '"' {
        assert(p_str(s, j + 1) is Done);
        lemma_str_ext(s, t, j + 1);
    } else if c == '{' {
        assert(p_fields(s, j + 1, true) is Done);
        lemma_fields_ext(s, t, j + 1, true);
    } else if c == '[' {
        assert(p_items(s, j + 1) is Done);
        lemma_items_ext(s, t, j + 1);
    } else {
        assert(c == '-' || c == '+' || c == '.' || is_digit(c));
        assert(p_num(s, j) is Done);
        lemma_num_ext(s, t, j);
    }
}

/// A field list that closed is unmoved by appending more input.
proof fn lemma_fields_ext(s: Seq<char>, t: Seq<char>, i: nat, first: bool)
    requires
        p_fields(s, i, first) is Done,
    ensures
        p_fields(s + t, i, first) == p_fields(s, i, first),
    decreases s.len() - i, 1nat,
{
    let j = i + ws_len(s, i);
    assert(j < s.len());
    lemma_ws_ext(s, t, i);
    assert((s + t)[j as int] == s[j as int]);
    if s[j as int] == '}' && first {
    } else {
        assert(s[j as int] == '"');
        assert(p_str(s, j + 1) is Done);
        lemma_str_ext(s, t, j + 1);
        let n1 = p_str(s, j + 1)->n;
        let e = j + 1 + n1;
        let m = e + ws_len(s, e);
        assert(m < s.len());
        lemma_ws_ext(s, t, e);
        assert((s + t)[m as int] == s[m as int]);
        assert(s[m as int] == ':');
        assert(p_value(s, m + 1) is Done);
        lemma_value_ext(s, t, m + 1);
        let n2 = p_value(s, m + 1)->n;
        let ve = m + 1 + n2;
        let t2 = ve + ws_len(s, ve);
        assert(t2 < s.len());
        lemma_ws_ext(s, t, ve);
        assert((s + t)[t2 as int] == s[t2 as int]);
        if s[t2 as int] == ',' {
            assert(p_fields(s, t2 + 1, false) is Done);
            lemma_fields_ext(s, t, t2 + 1, false);
        } else {
            assert(s[t2 as int] == '}');
        }
    }
}

/// An item list that closed is unmoved by appending more input.
proof fn lemma_items_ext(s: Seq<char>, t: Seq<char>, i: nat)
    requires
        p_items(s, i) is Done,
    ensures
        p_items(s + t, i) == p_items(s, i),
    decreases s.len() - i, 3nat,
{
    let j = i + ws_len(s, i);
    assert(j < s.len());
    lemma_ws_ext(s, t, i);
    assert((s + t)[j as int] == s[j as int]);
    if s[j as int] == ']' {
    } else {
        assert(p_items_more(s, i) is Done);
        lemma_items_more_ext(s, t, i);
    }
}

/// An item run that closed is unmoved by appending more input.
proof fn lemma_items_more_ext(s: Seq<char>, t: Seq<char>, i: nat)
    requires
        p_items_more(s, i) is Done,
    ensures
        p_items_more(s + t, i) == p_items_more(s, i),
    decreases s.len() - i, 2nat,
{
    assert(p_value(s, i) is Done);
    lemma_value_ext(s, t, i);
    let n = p_value(s, i)->n;
    let ve = i + n;
    let t2 = ve + ws_len(s, ve);
    assert(t2 < s.len());
    lemma_ws_ext(s, t, ve);
    assert((s + t)[t2 as int] == s[t2 as int]);
    if s[t2 as int] == ',' {
        assert(p_items_more(s, t2 + 1) is Done);
        lemma_items_more_ext(s, t, t2 + 1);
    } else {
        assert(s[t2 as int] == ']');
    }
}

/// A top-level object that parsed completely parses the same from any
/// longer buffer that begins with the same text: the streaming parser
/// never changes its mind about a finished object.
pub proof fn lemma_root_ext(s: Seq<char>, t: Seq<char>)
    requires
        p_root(s) is Done,
    ensures
        p_root(s + t) == p_root(s),
{
    let j = 0 + ws_len(s, 0);
    assert(j < s.len());
    lemma_ws_ext(s, t, 0);
    assert((s + t)[j as int] == s[j as int]);
    assert(s[j as int] == '{');
    assert(p_fields(s, j + 1, true) is Done);
    lemma_fields_ext(s, t, j + 1, true);
}

/// Multi-record drain: a chunk holding two back-to-back complete,
/// normalizable objects yields exactly their two records, in source order,
/// and leaves nothing buffered.
#[verifier::rlimit(100)]
pub proof fn lemma_multi_record_drain(s1: Seq<char>, s2: Seq<char>, r1: RecM, r2: RecM)
    requires
        p_root(s1) matches PRes::Done { v, n } && n == s1.len() && normalize_spec(v)
            == Ok::<RecM, crate::record::NormError>(r1),
        p_root(s2) matches PRes::Done { v, n } && n == s2.len() && normalize_spec(v)
            == Ok::<RecM, crate::record::NormError>(r2),
        s2.len() > 0 && s2[0] != '\n',
    ensures
        feed(s1 + s2).0 =~= seq![OutM::Log(r1), OutM::Log(r2)],
        feed(s1 + s2).1 =~= Seq::<char>::empty(),
{
    let s = s1 + s2;
    lemma_root_ext(s1, s2);
    let n1 = p_root(s1)->n;
    assert(s1.len() > 0) by {
        if s1.len() == 0 {
            assert(p_root(s1) is More);
        }
    }
    assert(p_root(s) == p_root(s1));
    let rest = s.skip(n1 as int);
    assert(rest =~= s2);
    assert(rest[0] != '\n');
    // the tail drains as its own single record
    let n2 = p_root(s2)->n;
    assert(s2.take(n2 as int) =~= s2);
    let rest2 = s2.skip(n2 as int);
    assert(rest2 =~= Seq::<char>::empty());
    assert(feed(rest2) == (Seq::<OutM>::empty(), rest2));
    assert(feed(s2).0 =~= seq![OutM::Log(r2)] + Seq::<OutM>::empty());
    assert(feed(s2).1 =~= Seq::<char>::empty());
    assert(feed(s).0 =~= seq![OutM::Log(r1)] + feed(s2).0);
    assert(seq![OutM::Log(r1)] + (seq![OutM::Log(r2)] + Seq::<OutM>::empty()) =~= seq![
        OutM::Log(r1),
        OutM::Log(r2),
    ]);
}
} // verus!
