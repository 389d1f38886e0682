use vstd::prelude::*;

verus! {

/// The indentation that starts every attribute line: a newline and four spaces.
pub open spec fn line_prefix() -> Seq<char> {
    seq!['\n', ' ', ' ', ' ', ' ']
}

/// One attribute line: `\n    <key>: <value>`.
pub open spec fn line(key: Seq<char>, value: Seq<char>) -> Seq<char> {
    line_prefix() + key + seq![':', ' '] + value
}

/// The lines of a list of `(key, value)` entries, in the list's order.
pub open spec fn render_lines(es: Seq<(Seq<char>, Seq<char>)>) -> Seq<char>
    decreases es.len(),
{
    if es.len() == 0 {
        Seq::empty()
    } else {
        render_lines(es.drop_last()) + line(es.last().0, es.last().1)
    }
}

/// The entry of an optional scalar field: none when absent, one when present.
pub open spec fn scalar_entries(key: Seq<char>, o: Option<Seq<char>>) -> Seq<(Seq<char>, Seq<char>)> {
    match o {
        Some(v) => seq![(key, v)],
        None => Seq::empty(),
    }
}

/// The entries of a repeated field: one per value, all under the same key.
pub open spec fn repeated_entries(key: Seq<char>, vs: Seq<Seq<char>>) -> Seq<(Seq<char>, Seq<char>)> {
    vs.map_values(|v: Seq<char>| (key, v))
}

/// The text of an optional string field.
pub open spec fn text_of(o: Option<String>) -> Option<Seq<char>> {
    match o {
        Some(s) => Some(s@),
        None => None,
    }
}

/// The decimal text of an optional integer field.
pub open spec fn decimal_of(o: Option<i32>) -> Option<Seq<char>> {
    match o {
        Some(n) => Some(decimal(n as int)),
        None => None,
    }
}

/// The values of an optional repeated field; absent reads as empty.
pub open spec fn values_of(o: Option<Vec<String>>) -> Seq<Seq<char>> {
    match o {
        Some(v) => v.deep_view(),
        None => Seq::empty(),
    }
}

/// The values that a list of entries holds under `key`, in order.
pub open spec fn values_for(es: Seq<(Seq<char>, Seq<char>)>, key: Seq<char>) -> Seq<Seq<char>>
    decreases es.len(),
{
    if es.len() == 0 {
        Seq::empty()
    } else if es.last().0 == key {
        values_for(es.drop_last(), key).push(es.last().1)
    } else {
        values_for(es.drop_last(), key)
    }
}

/// The values of an optional scalar field: none, or the one value.
pub open spec fn opt_values(o: Option<Seq<char>>) -> Seq<Seq<char>> {
    match o {
        Some(v) => seq![v],
        None => Seq::empty(),
    }
}

/// The keys of `es` never go down in `rank`.
pub open spec fn ranked(es: Seq<(Seq<char>, Seq<char>)>, rank: spec_fn(Seq<char>) -> int) -> bool {
    forall|i: int, j: int| 0 <= i < j < es.len() ==> rank(es[i].0) <= rank(es[j].0)
}

/// The character of a decimal digit.
pub open spec fn digit_char(d: nat) -> char {
    seq!['0', '1', '2', '3', '4', '5', '6', '7', '8', '9'][d as int]
}

/// Base-ten digits of a natural number, most significant first.
pub open spec fn digits(n: nat) -> Seq<char>
    decreases n,
{
    if n < 10 {
        seq![digit_char(n)]
    } else {
        digits(n / 10).push(digit_char(n % 10))
    }
}

/// Base-ten text of an integer, with a leading `-` when negative.
pub open spec fn decimal(n: int) -> Seq<char> {
    if n < 0 {
        seq!['-'] + digits((-n) as nat)
    } else {
        digits(n as nat)
    }
}

/// The lines of two lists of entries, one after the other, are the lines of
/// the joined list.
pub proof fn lemma_render_lines_add(a: Seq<(Seq<char>, Seq<char>)>, b: Seq<(Seq<char>, Seq<char>)>)
    ensures
        render_lines(a + b) == render_lines(a) + render_lines(b),
    decreases b.len(),
{
    if b.len() == 0 {
        assert(a + b =~= a);
        assert(render_lines(b) =~= Seq::<char>::empty());
        assert(render_lines(a) + render_lines(b) =~= render_lines(a));
    } else {
        assert((a + b).drop_last() =~= a + b.drop_last());
        assert((a + b).last() == b.last());
        lemma_render_lines_add(a, b.drop_last());
        assert(render_lines(a + b) =~= render_lines(a) + render_lines(b));
    }
}

/// The values under a key in two joined lists are those of the first, then
/// those of the second.
pub proof fn lemma_values_for_add(a: Seq<(Seq<char>, Seq<char>)>, b: Seq<(Seq<char>, Seq<char>)>, key: Seq<char>)
    ensures
        values_for(a + b, key) == values_for(a, key) + values_for(b, key),
    decreases b.len(),
{
    if b.len() == 0 {
        assert(a + b =~= a);
        assert(values_for(a, key) + values_for(b, key) =~= values_for(a, key));
    } else {
        assert((a + b).drop_last() =~= a + b.drop_last());
        assert((a + b).last() == b.last());
        lemma_values_for_add(a, b.drop_last(), key);
        assert(values_for(a + b, key) =~= values_for(a, key) + values_for(b, key));
    }
}

/// A repeated field holds its values under its own key and none under another.
pub proof fn lemma_values_for_repeated(k: Seq<char>, vs: Seq<Seq<char>>, key: Seq<char>)
    ensures
        values_for(repeated_entries(k, vs), key) == (if k == key { vs } else { Seq::empty() }),
    decreases vs.len(),
{
    let es = repeated_entries(k, vs);
    if vs.len() == 0 {
        assert(es.len() == 0);
        if k == key {
            assert(vs =~= Seq::<Seq<char>>::empty());
        }
    } else {
        assert(es.drop_last() =~= repeated_entries(k, vs.drop_last()));
        lemma_values_for_repeated(k, vs.drop_last(), key);
        if k == key {
            assert(vs.drop_last().push(vs.last()) =~= vs);
        }
    }
}

/// An optional scalar field holds its value, if any, under its own key and
/// none under another.
pub proof fn lemma_values_for_scalar(k: Seq<char>, o: Option<Seq<char>>, key: Seq<char>)
    ensures
        values_for(scalar_entries(k, o), key) == (if k == key { opt_values(o) } else { Seq::empty() }),
{
    let es = scalar_entries(k, o);
    if o is Some {
        assert(es.len() == 1);
        assert(es.drop_last() =~= Seq::<(Seq<char>, Seq<char>)>::empty());
        assert(values_for(es.drop_last(), key) == Seq::<Seq<char>>::empty());
        assert(Seq::<Seq<char>>::empty().push(o->Some_0) =~= seq![o->Some_0]);
    } else {
        assert(es.len() == 0);
    }
}

/// An optional scalar field gives one line when present and none when absent.
pub proof fn lemma_render_scalar(k: Seq<char>, o: Option<Seq<char>>)
    ensures
        render_lines(scalar_entries(k, o)) == (match o {
            Some(v) => line(k, v),
            None => Seq::<char>::empty(),
        }),
{
    let es = scalar_entries(k, o);
    if o is Some {
        assert(es.len() == 1);
        assert(es.drop_last() =~= Seq::<(Seq<char>, Seq<char>)>::empty());
        assert(render_lines(es.drop_last()) == Seq::<char>::empty());
        assert(Seq::<char>::empty() + line(k, o->Some_0) =~= line(k, o->Some_0));
    } else {
        assert(es.len() == 0);
    }
}

/// Appending a block whose keys all have rank `r` to entries of rank at most
/// `r` keeps them ranked.
pub proof fn lemma_ranked_append(
    a: Seq<(Seq<char>, Seq<char>)>,
    b: Seq<(Seq<char>, Seq<char>)>,
    rank: spec_fn(Seq<char>) -> int,
    r: int,
)
    requires
        ranked(a, rank),
        forall|i: int| 0 <= i < a.len() ==> rank(#[trigger] a[i].0) <= r,
        forall|j: int| 0 <= j < b.len() ==> rank(#[trigger] b[j].0) == r,
    ensures
        ranked(a + b, rank),
        forall|i: int| 0 <= i < (a + b).len() ==> rank(#[trigger] (a + b)[i].0) <= r,
{
    let ab = a + b;
    assert forall|i: int| 0 <= i < ab.len() implies rank(#[trigger] ab[i].0) <= r by {
        if i >= a.len() {
            assert(ab[i] == b[i - a.len()]);
        }
    }
    assert forall|i: int, j: int| 0 <= i < j < ab.len() implies rank(ab[i].0) <= rank(ab[j].0) by {
        if j >= a.len() {
            assert(ab[j] == b[j - a.len()]);
            if i >= a.len() {
                assert(ab[i] == b[i - a.len()]);
            }
        } else {
            assert(ab[i] == a[i]);
            assert(ab[j] == a[j]);
        }
    }
}

/// `s` holds no newline.
pub open spec fn no_newline(s: Seq<char>) -> bool {
    forall|i: int| 0 <= i < s.len() ==> s[i] != '\n'
}

/// The key and the value of `e` are free of newlines.
pub open spec fn plain_entry(e: (Seq<char>, Seq<char>)) -> bool {
    no_newline(e.0) && no_newline(e.1)
}

/// Every key and value of `es` is free of newlines.
pub open spec fn plain_entries(es: Seq<(Seq<char>, Seq<char>)>) -> bool {
    forall|i: int| 0 <= i < es.len() ==> plain_entry(#[trigger] es[i])
}

/// An attribute line as it reads after its newline: `    <key>: <value>`.
pub open spec fn text_line(key: Seq<char>, value: Seq<char>) -> Seq<char> {
    seq![' ', ' ', ' ', ' '] + key + seq![':', ' '] + value
}

/// The lines of `t` that follow a newline: what `split('\n')` gives, without
/// the piece before the first newline.
pub open spec fn segments(t: Seq<char>) -> Seq<Seq<char>>
    decreases t.len(),
{
    if t.len() == 0 {
        Seq::empty()
    } else if t.last() == '\n' {
        segments(t.drop_last()).push(Seq::empty())
    } else {
        let s = segments(t.drop_last());
        if s.len() == 0 {
            s
        } else {
            s.update(s.len() - 1, s.last().push(t.last()))
        }
    }
}

proof fn lemma_segments_extend(t: Seq<char>, u: Seq<char>)
    requires
        no_newline(u),
        segments(t).len() > 0,
    ensures
        segments(t + u) == segments(t).update(segments(t).len() - 1, segments(t).last() + u),
    decreases u.len(),
{
    let s = segments(t);
    if u.len() == 0 {
        assert(t + u =~= t);
        assert(s.last() + u =~= s.last());
        assert(s.update(s.len() - 1, s.last() + u) =~= s);
    } else {
        let u0 = u.drop_last();
        assert(no_newline(u0)) by {
            assert forall|i: int| 0 <= i < u0.len() implies u0[i] != '\n' by {
                assert(u0[i] == u[i]);
            }
        }
        lemma_segments_extend(t, u0);
        assert((t + u).drop_last() =~= t + u0);
        assert((t + u).last() == u[u.len() - 1]);
        assert((s.last() + u0).push(u.last()) =~= s.last() + u);
        assert(segments(t + u) =~= s.update(s.len() - 1, s.last() + u));
    }
}

proof fn lemma_segments_new_line(t: Seq<char>, u: Seq<char>)
    requires
        no_newline(u),
    ensures
        segments(t + seq!['\n'] + u) == segments(t).push(u),
{
    let tn = t + seq!['\n'];
    assert(tn.drop_last() =~= t);
    assert(segments(tn) == segments(t).push(Seq::empty()));
    lemma_segments_extend(tn, u);
    assert(Seq::<char>::empty() + u =~= u);
    assert(segments(t).push(Seq::empty()).update(segments(t).len() as int, Seq::<char>::empty() + u)
        =~= segments(t).push(u));
}

/// Where no key or value holds a newline, the lines of the rendered text are
/// the entries, one line each, in order.
pub proof fn lemma_segments_render_lines(es: Seq<(Seq<char>, Seq<char>)>)
    requires
        plain_entries(es),
    ensures
        segments(render_lines(es)) == es.map_values(|e: (Seq<char>, Seq<char>)| text_line(e.0, e.1)),
    decreases es.len(),
{
    if es.len() == 0 {
        assert(es.map_values(|e: (Seq<char>, Seq<char>)| text_line(e.0, e.1)) =~= Seq::<Seq<char>>::empty());
    } else {
        let es0 = es.drop_last();
        assert(plain_entries(es0)) by {
            assert forall|i: int| 0 <= i < es0.len() implies plain_entry(#[trigger] es0[i]) by {
                assert(es0[i] == es[i]);
            }
        }
        lemma_segments_render_lines(es0);
        let k = es.last().0;
        let v = es.last().1;
        assert(plain_entry(es[es.len() - 1]));
        let tl = text_line(k, v);
        assert(no_newline(tl)) by {
            assert forall|i: int| 0 <= i < tl.len() implies tl[i] != '\n' by {
                if i >= 4 && i < 4 + k.len() {
                    assert(tl[i] == k[i - 4]);
                } else if i >= 6 + k.len() {
                    assert(tl[i] == v[i - 6 - k.len()]);
                }
            }
        }
        assert(line(k, v) =~= seq!['\n'] + tl);
        assert(render_lines(es) =~= render_lines(es0) + seq!['\n'] + tl);
        lemma_segments_new_line(render_lines(es0), tl);
        assert(segments(render_lines(es)) =~= es.map_values(|e: (Seq<char>, Seq<char>)| text_line(e.0, e.1)));
    }
}

/// Joining two lists of entries without newlines gives such a list.
pub proof fn lemma_plain_entries_add(a: Seq<(Seq<char>, Seq<char>)>, b: Seq<(Seq<char>, Seq<char>)>)
    requires
        plain_entries(a),
        plain_entries(b),
    ensures
        plain_entries(a + b),
{
    assert forall|i: int| 0 <= i < (a + b).len() implies plain_entry(#[trigger] (a + b)[i]) by {
        if i < a.len() {
            assert((a + b)[i] == a[i]);
        } else {
            assert((a + b)[i] == b[i - a.len()]);
        }
    }
}

/// The entries of fields whose key and values hold no newline hold none.
pub proof fn lemma_plain_fields(k: Seq<char>, o: Option<Seq<char>>, vs: Seq<Seq<char>>)
    requires
        no_newline(k),
        o matches Some(v) ==> no_newline(v),
        forall|j: int| 0 <= j < vs.len() ==> no_newline(#[trigger] vs[j]),
    ensures
        plain_entries(scalar_entries(k, o)),
        plain_entries(repeated_entries(k, vs)),
{
    let r = repeated_entries(k, vs);
    assert forall|i: int| 0 <= i < r.len() implies plain_entry(#[trigger] r[i]) by {
        assert(r[i] == (k, vs[i]));
    }
}

/// The base-ten text of an integer holds no newline.
pub proof fn lemma_decimal_no_newline(n: int)
    ensures
        no_newline(decimal(n)),
{
    if n < 0 {
        lemma_digits_no_newline((-n) as nat);
        let d = seq!['-'] + digits((-n) as nat);
        assert forall|i: int| 0 <= i < d.len() implies d[i] != '\n' by {
            if i > 0 {
                assert(d[i] == digits((-n) as nat)[i - 1]);
            }
        }
    } else {
        lemma_digits_no_newline(n as nat);
    }
}

proof fn lemma_digits_no_newline(n: nat)
    ensures
        no_newline(digits(n)),
    decreases n,
{
    let ds = seq!['0', '1', '2', '3', '4', '5', '6', '7', '8', '9'];
    assert forall|d: nat| d < 10 implies #[trigger] digit_char(d) != '\n' by {
        assert(ds[d as int] != '\n');
    }
    if n >= 10 {
        lemma_digits_no_newline(n / 10);
        let s = digits(n);
        assert forall|i: int| 0 <= i < s.len() implies s[i] != '\n' by {
            if i < s.len() - 1 {
                assert(s[i] == digits(n / 10)[i]);
            } else {
                assert(s[i] == digit_char(n % 10));
            }
        }
    } else {
        assert(digit_char(n) != '\n');
    }
}

/// Builds one attribute line, `\n    <key>: <value>`.
pub(crate) fn scalar_line(key: &str, value: &str) -> (r: String)
    ensures
        r@ == line(key@, value@),
{
    let mut val = String::from_str("\n    ");
    proof {
        reveal_strlit("\n    ");
        reveal_strlit(": ");
    }
    assert("\n    "@ =~= line_prefix());
    val.append(key);
    val.append(": ");
    val.append(value);
    assert(val@ =~= line(key@, value@));
    val
}

/// The text of one decimal digit.
fn digit_str(d: u32) -> (r: &'static str)
    requires
        d < 10,
    ensures
        r@ == seq![digit_char(d as nat)],
{
    proof {
        reveal_strlit("0");
        reveal_strlit("1");
        reveal_strlit("2");
        reveal_strlit("3");
        reveal_strlit("4");
        reveal_strlit("5");
        reveal_strlit("6");
        reveal_strlit("7");
        reveal_strlit("8");
        reveal_strlit("9");
    }
    let r = match d {
        0 => "0",
        1 => "1",
        2 => "2",
        3 => "3",
        4 => "4",
        5 => "5",
        6 => "6",
        7 => "7",
        8 => "8",
        _ => "9",
    };
    assert(r@ =~= seq![digit_char(d as nat)]);
    r
}

/// Appends the base-ten digits of `m`, most significant first.
fn push_digits(m: u32, s: &mut String)
    ensures
        final(s)@ == old(s)@ + digits(m as nat),
    decreases m,
{
    if m >= 10 {
        push_digits(m / 10, s);
    }
    s.append(digit_str(m % 10));
    proof {
        if m >= 10 {
            assert(old(s)@ + digits(m as nat) =~= old(s)@ + digits((m / 10) as nat) + seq![digit_char((m % 10) as nat)]);
        } else {
            assert(m % 10 == m);
        }
    }
}

/// The base-ten text of `n`, with a leading `-` when it is negative.
fn decimal_string(n: i32) -> (r: String)
    ensures
        r@ == decimal(n as int),
{
    let mut s = String::new();
    if n < 0 {
        s.append("-");
        proof {
            reveal_strlit("-");
        }
        let m: u32 = (0 - (n as i64)) as u32;
        push_digits(m, &mut s);
    } else {
        push_digits(n as u32, &mut s);
    }
    assert(s@ =~= decimal(n as int));
    s
}

/// Serializes a repeated field: one line per value, under the same key, in
/// order. An absent field gives no line.
pub fn from_vec_to_string(o: &Option<Vec<String>>, key: &str) -> (r: String)
    ensures
        r@ == render_lines(repeated_entries(key@, values_of(*o))),
{
    match o {
        Some(t) => {
            let mut val = String::new();
            let ghost vs = t.deep_view();
            let mut i: usize = 0;
            while i < t.len()
                invariant
                    i <= t.len(),
                    vs == t.deep_view(),
                    val@ == render_lines(repeated_entries(key@, vs.take(i as int))),
                decreases t.len() - i,
            {
                let l = scalar_line(key, t[i].as_str());
                proof {
                    let prev = repeated_entries(key@, vs.take(i as int));
                    let next = repeated_entries(key@, vs.take(i + 1));
                    assert(next.drop_last() =~= prev);
                    assert(next.last() == (key@, t[i as int]@));
                }
                val.append(l.as_str());
                i = i + 1;
            }
            assert(vs.take(t.len() as int) =~= vs);
            val
        },
        None => {
            let r = String::new();
            assert(repeated_entries(key@, Seq::empty()) =~= Seq::empty());
            r
        },
    }
}

/// Serializes an optional string field: one line when present, none when
/// absent.
pub fn from_option_to_string(o: &Option<String>, key: &str) -> (r: String)
    ensures
        r@ == render_lines(scalar_entries(key@, text_of(*o))),
{
    match o {
        Some(t) => {
            let r = scalar_line(key, t.as_str());
            proof {
                lemma_render_scalar(key@, text_of(*o));
            }
            r
        },
        None => {
            proof {
                lemma_render_scalar(key@, None);
            }
            String::new()
        },
    }
}

/// Serializes an optional integer field in base ten: one line when present,
/// none when absent.
pub fn from_opt_i32_to_string(o: &Option<i32>, key: &str) -> (r: String)
    ensures
        r@ == render_lines(scalar_entries(key@, decimal_of(*o))),
{
    match o {
        Some(t) => {
            let digits = decimal_string(*t);
            let r = scalar_line(key, digits.as_str());
            proof {
                lemma_render_scalar(key@, decimal_of(*o));
            }
            r
        },
        None => {
            proof {
                lemma_render_scalar(key@, None);
            }
            String::new()
        },
    }
}

} // verus!
