//! Regeneration of the drawing instructions that render a text field's value.
use vstd::prelude::*;
use crate::field::copy_bytes;
use crate::object::{bytes_eq, Object, Operation, StringFormat};

verus! {

/// A fill colour: gray level, red-green-blue, or cyan-magenta-yellow-black components.
#[derive(Clone, Copy, Debug, PartialEq, Eq, Structural)]
pub enum Color {
    Gray(i64),
    Rgb(i64, i64, i64),
    Cmyk(i64, i64, i64, i64),
}

/// The font and colour that a default-appearance directive selects.
#[derive(Clone, Debug, PartialEq, Eq)]
pub struct FontSpec {
    pub name: Vec<u8>,
    pub size: i64,
    pub color: Color,
}

/// The horizontal inset of the text from the left edge of the field, in thousandths.
pub const TEXT_INSET: i64 = 2000;

pub open spec fn is_space(c: u8) -> bool {
    c == 32 || c == 9 || c == 10 || c == 13
}

/// The tokens completed within `s`, and the token still being read at its end.
pub open spec fn token_state(s: Seq<u8>) -> (Seq<Seq<u8>>, Seq<u8>)
    decreases s.len(),
{
    if s.len() == 0 {
        (Seq::empty(), Seq::empty())
    } else {
        let (done, cur) = token_state(s.drop_last());
        if is_space(s.last()) {
            if cur.len() > 0 {
                (done.push(cur), Seq::empty())
            } else {
                (done, Seq::empty())
            }
        } else {
            (done, cur.push(s.last()))
        }
    }
}

/// The whitespace-separated tokens of `s`.
pub open spec fn tokens(s: Seq<u8>) -> Seq<Seq<u8>> {
    let (done, cur) = token_state(s);
    if cur.len() > 0 {
        done.push(cur)
    } else {
        done
    }
}

pub open spec fn is_digit(c: u8) -> bool {
    48 <= c <= 57
}

/// The number that the decimal digits `s` spell.
pub open spec fn digits_value(s: Seq<u8>) -> int
    decreases s.len(),
{
    if s.len() == 0 {
        0
    } else {
        digits_value(s.drop_last()) * 10 + (s.last() - 48)
    }
}

pub open spec fn all_digits(s: Seq<u8>) -> bool {
    forall|i: int| 0 <= i < s.len() ==> is_digit(#[trigger] s[i])
}

/// The position of the first "." in `t` from position `i` on, else the length of `t`.
pub open spec fn dot_at(t: Seq<u8>, i: int) -> int
    decreases t.len() - i,
{
    if i < 0 || i >= t.len() {
        t.len() as int
    } else if t[i] == 46 {
        i
    } else {
        dot_at(t, i + 1)
    }
}

/// The first three fraction digits, padded with zeros.
pub open spec fn pad3(f: Seq<u8>) -> Seq<u8> {
    if f.len() >= 3 {
        f.subrange(0, 3)
    } else {
        f + Seq::new((3 - f.len()) as nat, |i: int| 48u8)
    }
}

/// The value, in thousandths, of an unsigned decimal token: at most nine digits, then
/// optionally "." and at most nine more; digits past the third after the point are dropped.
pub open spec fn unsigned_value(t: Seq<u8>) -> Option<int> {
    let d = dot_at(t, 0);
    let ip = t.subrange(0, d);
    let fp = if d < t.len() { t.subrange(d + 1, t.len() as int) } else { Seq::empty() };
    if ip.len() <= 9 && fp.len() <= 9 && ip.len() + fp.len() >= 1 && all_digits(ip) && all_digits(fp) {
        Some(digits_value(ip) * 1000 + digits_value(pad3(fp)))
    } else {
        None
    }
}

/// The value, in thousandths, of a decimal token with an optional minus sign.
pub open spec fn number_token(t: Seq<u8>) -> Option<int> {
    if t.len() >= 1 && t[0] == 45 {
        match unsigned_value(t.subrange(1, t.len() as int)) {
            Some(v) => Some(-v),
            None => None,
        }
    } else {
        unsigned_value(t)
    }
}

/// The value of a numeric token in thousandths; 0 where the token is not a number.
pub open spec fn number(t: Seq<u8>) -> int {
    match number_token(t) {
        Some(v) => v,
        None => 0,
    }
}

pub open spec fn op_tf() -> Seq<u8> { seq![84u8, 102u8] }
pub open spec fn op_g() -> Seq<u8> { seq![103u8] }
pub open spec fn op_rg() -> Seq<u8> { seq![114u8, 103u8] }
pub open spec fn op_k() -> Seq<u8> { seq![107u8] }
pub open spec fn font_helv() -> Seq<u8> { seq![72u8, 101u8, 108u8, 118u8] }

/// The position of the first "Tf" token from position `i` on.
pub open spec fn find_tf(toks: Seq<Seq<u8>>, i: int) -> Option<int>
    decreases toks.len() - i,
{
    if i < 0 || i >= toks.len() {
        None
    } else if toks[i] == op_tf() {
        Some(i)
    } else {
        find_tf(toks, i + 1)
    }
}

/// A font resource name without its leading slash.
pub open spec fn resource_name(t: Seq<u8>) -> Seq<u8> {
    if t.len() > 0 && t[0] == 47 {
        t.subrange(1, t.len() as int)
    } else {
        t
    }
}

/// The colour that the tokens after the font selection set: "c g", "r g b rg" or
/// "c m y k k"; black where they are none of these.
pub open spec fn color_of(rest: Seq<Seq<u8>>) -> Color {
    if rest.len() == 2 && rest[1] == op_g() {
        Color::Gray(number(rest[0]) as i64)
    } else if rest.len() == 4 && rest[3] == op_rg() {
        Color::Rgb(number(rest[0]) as i64, number(rest[1]) as i64, number(rest[2]) as i64)
    } else if rest.len() == 5 && rest[4] == op_k() {
        Color::Cmyk(number(rest[0]) as i64, number(rest[1]) as i64, number(rest[2]) as i64, number(rest[3]) as i64)
    } else {
        Color::Gray(0)
    }
}

/// The font name, size and colour that directive `da` selects: "/Name size Tf" followed by
/// a colour. `None` where it selects no font, or a font of size zero.
pub open spec fn font_of(da: Seq<u8>) -> Option<(Seq<u8>, int, Color)> {
    let toks = tokens(da);
    match find_tf(toks, 0) {
        Some(t) => if t >= 2 && number(toks[t - 1]) != 0 {
            Some((resource_name(toks[t - 2]), number(toks[t - 1]), color_of(toks.subrange(t + 1, toks.len() as int))))
        } else {
            None
        },
        None => None,
    }
}

/// The font used for a field with directive `da`: the one it selects, else Helvetica at the
/// fallback size in black. Sizes are in thousandths.
pub open spec fn effective_font(da: Option<Seq<u8>>, fallback: int) -> (Seq<u8>, int, Color) {
    match da {
        Some(s) => match font_of(s) {
            Some(f) => f,
            None => (font_helv(), fallback * 1000, Color::Gray(0)),
        },
        None => (font_helv(), fallback * 1000, Color::Gray(0)),
    }
}

/// `a / b` rounded toward zero.
pub open spec fn tdiv(a: int, b: int) -> int {
    if a >= 0 {
        a / b
    } else {
        -((-a) / b)
    }
}

/// The vertical offset of the text, in thousandths, for a field whose lower edge minus upper
/// edge is `dy` thousandths and a font of `size` thousandths: half the height less 0.4 of the
/// size where the difference is positive, else half the size.
pub open spec fn text_y(dy: int, size: int) -> int {
    if dy > 0 {
        dy / 2 - tdiv(2 * size, 5)
    } else {
        tdiv(size, 2)
    }
}

/// The operand that gives a font size of `size` thousandths: an integer where it is whole.
pub open spec fn size_operand(size: int) -> Object {
    if tdiv(size, 1000) * 1000 == size {
        Object::Integer(tdiv(size, 1000) as i64)
    } else {
        Object::Real(size as i64)
    }
}

/// An ASCII letter in lower case.
pub open spec fn lower(c: u8) -> u8 {
    if 65 <= c <= 90 {
        (c + 32) as u8
    } else {
        c
    }
}

pub open spec fn lower_seq(s: Seq<u8>) -> Seq<u8> {
    s.map_values(|c: u8| lower(c))
}

/// Operators that paint text, compared without regard to case; regeneration removes them.
pub open spec fn is_text_operator(op: Seq<u8>) -> bool {
    let l = lower_seq(op);
    ||| l == seq![98u8, 116u8]
    ||| l == seq![116u8, 99u8]
    ||| l == seq![116u8, 119u8]
    ||| l == seq![116u8, 122u8]
    ||| l == seq![103u8]
    ||| l == seq![116u8, 109u8]
    ||| l == seq![116u8, 114u8]
    ||| l == seq![116u8, 102u8]
    ||| l == seq![116u8, 106u8]
    ||| l == seq![101u8, 116u8]
    ||| l == seq![113u8]
    ||| l == seq![98u8, 109u8, 99u8]
    ||| l == seq![101u8, 109u8, 99u8]
}

/// The instructions of `ops` that do not paint text, in order.
pub open spec fn kept(ops: Seq<Operation>) -> Seq<Operation>
    decreases ops.len(),
{
    if ops.len() == 0 {
        Seq::empty()
    } else if is_text_operator(ops.last().operator@) {
        kept(ops.drop_last())
    } else {
        kept(ops.drop_last()).push(ops.last())
    }
}

/// `o` has operator `name` and exactly the operands `operands`.
pub open spec fn plain_op(o: Operation, name: Seq<u8>, operands: Seq<Object>) -> bool {
    o.operator@ == name && o.operands@ == operands
}

/// `o` has operator `name` and a single name operand `b`.
pub open spec fn name_op(o: Operation, name: Seq<u8>, b: Seq<u8>) -> bool {
    o.operator@ == name && o.operands@.len() == 1 && (o.operands@[0] matches Object::Name(n) && n@ == b)
}

/// The operator and operands that set colour `c`.
pub open spec fn color_op(o: Operation, c: Color) -> bool {
    match c {
        Color::Gray(a) => plain_op(o, op_g(), seq![Object::Real(a)]),
        Color::Rgb(r, g, b) => plain_op(o, op_rg(), seq![Object::Real(r), Object::Real(g), Object::Real(b)]),
        Color::Cmyk(c, m, y, k) => plain_op(o, op_k(), seq![Object::Real(c), Object::Real(m), Object::Real(y), Object::Real(k)]),
    }
}

/// `new` is `old` without its text-painting instructions, followed by a marked "Tx" section
/// that shows `text` in `font` at offset (`TEXT_INSET`, `y`) thousandths.
pub open spec fn regenerated(old: Seq<Operation>, new: Seq<Operation>, font: (Seq<u8>, int, Color), y: int, text: Seq<u8>) -> bool {
    let k = kept(old);
    let m = k.len() as int;
    &&& new.len() == m + 10
    &&& new.subrange(0, m) == k
    &&& name_op(new[m], seq![66u8, 77u8, 67u8], seq![84u8, 120u8])
    &&& plain_op(new[m + 1], seq![113u8], Seq::empty())
    &&& plain_op(new[m + 2], seq![66u8, 84u8], Seq::empty())
    &&& new[m + 3].operator@ == op_tf() && new[m + 3].operands@.len() == 2
        && new[m + 3].operands@[1] == size_operand(font.1)
        && (new[m + 3].operands@[0] matches Object::Name(f) && f@ == font.0)
    &&& color_op(new[m + 4], font.2)
    &&& plain_op(new[m + 5], seq![84u8, 109u8], seq![Object::Integer(1), Object::Integer(0), Object::Integer(0), Object::Integer(1), Object::Real(TEXT_INSET), Object::Real(y as i64)])
    &&& new[m + 6].operator@ == seq![84u8, 106u8] && new[m + 6].operands@.len() == 1
        && (new[m + 6].operands@[0] matches Object::String(t, _) && t@ == text)
    &&& plain_op(new[m + 7], seq![69u8, 84u8], Seq::empty())
    &&& plain_op(new[m + 8], seq![81u8], Seq::empty())
    &&& plain_op(new[m + 9], seq![69u8, 77u8, 67u8], Seq::empty())
}


/// The whitespace-separated tokens of `s`.
pub fn split_tokens(s: &[u8]) -> (r: Vec<Vec<u8>>)
    ensures
        crate::field::texts(r@) == tokens(s@),
{
    let mut done: Vec<Vec<u8>> = Vec::new();
    let mut cur: Vec<u8> = Vec::new();
    let mut i: usize = 0;
    while i < s.len()
        invariant
            i <= s@.len(),
            (crate::field::texts(done@), cur@) == token_state(s@.subrange(0, i as int)),
        decreases s@.len() - i,
    {
        let c = s[i];
        let ghost pre = s@.subrange(0, i as int);
        assert(s@.subrange(0, i as int + 1).drop_last() =~= pre);
        let ghost d0 = done@;
        if c == 32 || c == 9 || c == 10 || c == 13 {
            if cur.len() > 0 {
                let ghost cv = cur@;
                done.push(cur);
                assert(crate::field::texts(done@) =~= crate::field::texts(d0).push(cv));
                cur = Vec::new();
            }
        } else {
            cur.push(c);
        }
        i = i + 1;
    }
    assert(s@.subrange(0, s@.len() as int) =~= s@);
    if cur.len() > 0 {
        let ghost d0 = done@;
        let ghost cv = cur@;
        done.push(cur);
        assert(crate::field::texts(done@) =~= crate::field::texts(d0).push(cv));
    }
    done
}

pub open spec fn pow10(n: nat) -> int
    decreases n,
{
    if n == 0 {
        1
    } else {
        10 * pow10((n - 1) as nat)
    }
}

/// The value of the digits `t[from..to]`, at most nine of them; `None` where one is not a
/// digit.
fn digits_range(t: &[u8], from: usize, to: usize) -> (r: Option<i64>)
    requires
        from <= to <= t@.len(),
        to - from <= 9,
    ensures
        r matches Some(v) ==> 0 <= v < 1_000_000_000 && v < pow10((to - from) as nat) && all_digits(t@.subrange(from as int, to as int))
            && v == digits_value(t@.subrange(from as int, to as int)),
        r is None ==> !all_digits(t@.subrange(from as int, to as int)),
{
    let mut v: i64 = 0;
    let mut i: usize = from;
    proof {
        lemma_pow10_bound(0);
        assert(t@.subrange(from as int, from as int) =~= Seq::<u8>::empty());
    }
    while i < to
        invariant
            from <= i <= to <= t@.len(),
            to - from <= 9,
            forall|j: int| from <= j < i ==> is_digit(#[trigger] t@[j]),
            v == digits_value(t@.subrange(from as int, i as int)),
            0 <= v < pow10((i - from) as nat),
            pow10((i - from) as nat) <= 1_000_000_000,
        decreases to - i,
    {
        let c = t[i];
        if c < 48 || c > 57 {
            assert(t@.subrange(from as int, to as int)[i - from] == c);
            return None;
        }
        proof {
            assert(t@.subrange(from as int, i as int + 1).drop_last() =~= t@.subrange(from as int, i as int));
            let p = pow10((i - from) as nat);
            assert(pow10((i + 1 - from) as nat) == 10 * p);
            assert(v * 10 + (c - 48) < 10 * p) by (nonlinear_arith)
                requires v < p, 0 <= c - 48 <= 9;
            lemma_pow10_bound((i + 1 - from) as nat);
        }
        v = v * 10 + (c - 48) as i64;
        i = i + 1;
    }
    proof {
        let sub = t@.subrange(from as int, to as int);
        assert forall|k: int| 0 <= k < sub.len() implies is_digit(#[trigger] sub[k]) by {
            assert(sub[k] == t@[from + k]);
        }
    }
    Some(v)
}

/// Powers of ten up to the ninth stay within a billion.
proof fn lemma_pow10_bound(n: nat)
    requires
        n <= 9,
    ensures
        pow10(n) <= 1_000_000_000,
    decreases n,
{
    reveal_with_fuel(pow10, 10);
}

/// The position of the first "." in `u`, else its length.
fn dot_index(u: &[u8]) -> (r: usize)
    ensures
        r as int == dot_at(u@, 0),
        r <= u@.len(),
{
    let mut d: usize = 0;
    while d < u.len()
        invariant
            d <= u@.len(),
            dot_at(u@, 0) == dot_at(u@, d as int),
        decreases u@.len() - d,
    {
        if u[d] == 46 {
            return d;
        }
        d = d + 1;
    }
    d
}

/// The value, in thousandths, of an unsigned decimal token.
fn unsigned_of(u: &[u8]) -> (r: Option<i64>)
    ensures
        r matches Some(v) ==> unsigned_value(u@) == Some(v as int) && 0 <= v < 1_000_000_000_000,
        r is None ==> unsigned_value(u@) is None,
{
    let d = dot_index(u);
    let flen: usize = if d < u.len() { u.len() - d - 1 } else { 0 };
    let fstart: usize = if d < u.len() { d + 1 } else { u.len() };
    let ghost ip = u@.subrange(0, d as int);
    let ghost fp = u@.subrange(fstart as int, u@.len() as int);
    assert(d >= u@.len() ==> fp =~= Seq::<u8>::empty());
    if d > 9 || flen > 9 || d + flen < 1 {
        return None;
    }
    let iv = match digits_range(u, 0, d) {
        Some(v) => v,
        None => return None,
    };
    let fv = match digits_range(u, fstart, u.len()) {
        Some(v) => v,
        None => return None,
    };
    let f3: i64 = if flen >= 3 {
        let w = digits_range(u, fstart, fstart + 3).unwrap();
        assert(fp.len() == flen);
        assert(u@.subrange(fstart as int, fstart + 3) =~= pad3(fp));
        assert(w == digits_value(pad3(fp)));
        w
    } else if flen == 2 {
        proof {
            assert(pad3(fp) =~= fp.push(48u8));
            assert(fp.push(48u8).drop_last() =~= fp);
            assert(digits_value(fp.push(48u8)) == digits_value(fp) * 10);
        }
        fv * 10
    } else if flen == 1 {
        proof {
            assert(pad3(fp) =~= fp.push(48u8).push(48u8));
            assert(fp.push(48u8).push(48u8).drop_last() =~= fp.push(48u8));
            assert(fp.push(48u8).drop_last() =~= fp);
            assert(digits_value(fp.push(48u8)) == digits_value(fp) * 10);
            assert(digits_value(fp.push(48u8).push(48u8)) == digits_value(fp) * 100);
        }
        fv * 100
    } else {
        proof {
            assert(pad3(fp) =~= seq![48u8, 48u8, 48u8]);
            assert(seq![48u8, 48u8, 48u8].drop_last() =~= seq![48u8, 48u8]);
            assert(seq![48u8, 48u8].drop_last() =~= seq![48u8]);
            assert(seq![48u8].drop_last() =~= Seq::<u8>::empty());
            assert(digits_value(Seq::<u8>::empty()) == 0);
            assert(digits_value(seq![48u8]) == 0);
            assert(digits_value(seq![48u8, 48u8]) == 0);
            assert(digits_value(seq![48u8, 48u8, 48u8]) == 0);
        }
        0
    };
    assert(0 <= f3 < 1000) by {
        reveal_with_fuel(pow10, 4);
    };
    proof {
        assert(ip == u@.subrange(0, dot_at(u@, 0)));
        assert(iv == digits_value(ip));
        assert(f3 == digits_value(pad3(fp)));
        assert(fp == (if dot_at(u@, 0) < u@.len() { u@.subrange(dot_at(u@, 0) + 1, u@.len() as int) } else { Seq::<u8>::empty() }));
    }
    Some(iv * 1000 + f3)
}

/// The value of a numeric token in thousandths; 0 where the token is not a number.
pub fn parse_number(t: &[u8]) -> (r: i64)
    ensures
        r as int == number(t@),
        -1_000_000_000_000 < r < 1_000_000_000_000,
{
    if t.len() >= 1 && t[0] == 45 {
        let mut u: Vec<u8> = Vec::new();
        let mut i: usize = 1;
        while i < t.len()
            invariant
                1 <= i <= t@.len(),
                u@ == t@.subrange(1, i as int),
            decreases t@.len() - i,
        {
            u.push(t[i]);
            i = i + 1;
            assert(u@ =~= t@.subrange(1, i as int));
        }
        match unsigned_of(u.as_slice()) {
            Some(v) => -v,
            None => 0,
        }
    } else {
        match unsigned_of(t) {
            Some(v) => v,
            None => 0,
        }
    }
}

/// The position of the first "Tf" token.
fn find_tf_index(toks: &Vec<Vec<u8>>) -> (r: Option<usize>)
    ensures
        r matches Some(t) ==> t < toks@.len() && find_tf(crate::field::texts(toks@), 0) == Some(t as int),
        r is None ==> find_tf(crate::field::texts(toks@), 0) is None,
{
    let ghost tv = crate::field::texts(toks@);
    let tf: [u8; 2] = [84, 102];
    assert(tf@ == op_tf());
    let mut t: usize = 0;
    while t < toks.len()
        invariant
            t <= toks@.len(),
            tv == crate::field::texts(toks@),
            tv.len() == toks@.len(),
            find_tf(tv, 0) == find_tf(tv, t as int),
            tf@ == op_tf(),
        decreases toks@.len() - t,
    {
        assert(tv[t as int] == toks@[t as int]@);
        if bytes_eq(toks[t].as_slice(), tf.as_slice()) {
            return Some(t);
        }
        t = t + 1;
    }
    None
}

/// The font selection and colour of directive `da`, where it selects a font of non-zero size.
pub fn parse_font(da: &[u8]) -> (r: Option<FontSpec>)
    ensures
        r matches Some(f) ==> font_of(da@) == Some((f.name@, f.size as int, f.color)),
        r matches Some(f) ==> -1_000_000_000_000 < f.size < 1_000_000_000_000,
        r is None ==> font_of(da@) is None,
{
    let toks = split_tokens(da);
    let ghost tv = crate::field::texts(toks@);
    let t = match find_tf_index(&toks) {
        Some(t) => t,
        None => return None,
    };
    if t < 2 {
        return None;
    }
    assert(tv[t as int] == toks@[t as int]@);
    assert(tv[t - 1] == toks@[t - 1]@ && tv[t - 2] == toks@[t - 2]@);
    let size = parse_number(toks[t - 1].as_slice());
    if size == 0 {
        return None;
    }
    let raw = toks[t - 2].as_slice();
    let name = if raw.len() > 0 && raw[0] == 47 {
        let mut nm: Vec<u8> = Vec::new();
        let mut i: usize = 1;
        while i < raw.len()
            invariant
                1 <= i <= raw@.len(),
                nm@ == raw@.subrange(1, i as int),
            decreases raw@.len() - i,
        {
            nm.push(raw[i]);
            i = i + 1;
            assert(nm@ =~= raw@.subrange(1, i as int));
        }
        nm
    } else {
        copy_bytes(raw)
    };
    let rest = toks.len() - (t + 1);
    let ghost rs = tv.subrange(t + 1, tv.len() as int);
    assert(rs.len() == rest);
    let g: [u8; 1] = [103];
    let rg: [u8; 2] = [114, 103];
    let k: [u8; 1] = [107];
    assert(g@ == op_g() && rg@ == op_rg() && k@ == op_k());
    let color = if rest == 2 && bytes_eq(toks[t + 2].as_slice(), g.as_slice()) {
        assert(rs[1] == toks@[t + 2]@ && rs[0] == toks@[t + 1]@);
        Color::Gray(parse_number(toks[t + 1].as_slice()))
    } else if rest == 4 && bytes_eq(toks[t + 4].as_slice(), rg.as_slice()) {
        assert(rs[3] == toks@[t + 4]@ && rs[0] == toks@[t + 1]@ && rs[1] == toks@[t + 2]@ && rs[2] == toks@[t + 3]@);
        Color::Rgb(parse_number(toks[t + 1].as_slice()), parse_number(toks[t + 2].as_slice()), parse_number(toks[t + 3].as_slice()))
    } else if rest == 5 && bytes_eq(toks[t + 5].as_slice(), k.as_slice()) {
        assert(rs[4] == toks@[t + 5]@ && rs[0] == toks@[t + 1]@ && rs[1] == toks@[t + 2]@ && rs[2] == toks@[t + 3]@ && rs[3] == toks@[t + 4]@);
        Color::Cmyk(parse_number(toks[t + 1].as_slice()), parse_number(toks[t + 2].as_slice()), parse_number(toks[t + 3].as_slice()), parse_number(toks[t + 4].as_slice()))
    } else {
        proof {
            if rest == 2 { assert(rs[1] == toks@[t + 2]@); }
            if rest == 4 { assert(rs[3] == toks@[t + 4]@); }
            if rest == 5 { assert(rs[4] == toks@[t + 5]@); }
        }
        Color::Gray(0)
    };
    Some(FontSpec { name, size, color })
}


/// Whether `op` paints text, compared without regard to case.
pub fn is_text_operator_exec(op: &[u8]) -> (r: bool)
    ensures
        r == is_text_operator(op@),
{
    let mut l: Vec<u8> = Vec::new();
    let mut i: usize = 0;
    while i < op.len()
        invariant
            i <= op@.len(),
            l@ == lower_seq(op@.subrange(0, i as int)),
        decreases op@.len() - i,
    {
        let c = op[i];
        let lc = if 65 <= c && c <= 90 { c + 32 } else { c };
        l.push(lc);
        i = i + 1;
        assert(l@ =~= lower_seq(op@.subrange(0, i as int)));
    }
    assert(op@.subrange(0, op@.len() as int) =~= op@);
    let a: [u8; 2] = [98, 116];
    let b: [u8; 2] = [116, 99];
    let c: [u8; 2] = [116, 119];
    let d: [u8; 2] = [116, 122];
    let e: [u8; 1] = [103];
    let f: [u8; 2] = [116, 109];
    let g: [u8; 2] = [116, 114];
    let h: [u8; 2] = [116, 102];
    let j: [u8; 2] = [116, 106];
    let k: [u8; 2] = [101, 116];
    let m: [u8; 1] = [113];
    let n: [u8; 3] = [98, 109, 99];
    let o: [u8; 3] = [101, 109, 99];
    assert(a@ == seq![98u8, 116u8] && b@ == seq![116u8, 99u8] && c@ == seq![116u8, 119u8]);
    assert(d@ == seq![116u8, 122u8] && e@ == seq![103u8] && f@ == seq![116u8, 109u8]);
    assert(g@ == seq![116u8, 114u8] && h@ == seq![116u8, 102u8] && j@ == seq![116u8, 106u8]);
    assert(k@ == seq![101u8, 116u8] && m@ == seq![113u8] && n@ == seq![98u8, 109u8, 99u8]);
    assert(o@ == seq![101u8, 109u8, 99u8]);
    let ls = l.as_slice();
    bytes_eq(ls, a.as_slice()) || bytes_eq(ls, b.as_slice()) || bytes_eq(ls, c.as_slice())
        || bytes_eq(ls, d.as_slice()) || bytes_eq(ls, e.as_slice()) || bytes_eq(ls, f.as_slice())
        || bytes_eq(ls, g.as_slice()) || bytes_eq(ls, h.as_slice()) || bytes_eq(ls, j.as_slice())
        || bytes_eq(ls, k.as_slice()) || bytes_eq(ls, m.as_slice()) || bytes_eq(ls, n.as_slice())
        || bytes_eq(ls, o.as_slice())
}

/// The instructions of `ops` that do not paint text, in order.
pub fn strip_text_operations(ops: Vec<Operation>) -> (r: Vec<Operation>)
    ensures
        r@ == kept(ops@),
{
    let ghost all = ops@;
    let total = ops.len();
    let mut rest = ops;
    let mut r: Vec<Operation> = Vec::new();
    let mut i: usize = 0;
    while rest.len() > 0
        invariant
            i <= all.len(),
            all.len() == total,
            rest@ == all.subrange(i as int, all.len() as int),
            r@ == kept(all.subrange(0, i as int)),
        decreases rest@.len(),
    {
        let op = rest.remove(0);
        proof {
            assert(op == all[i as int]);
            assert(all.subrange(0, i as int + 1).drop_last() =~= all.subrange(0, i as int));
        }
        if !is_text_operator_exec(op.operator.as_slice()) {
            r.push(op);
        }
        i = i + 1;
        assert(rest@ =~= all.subrange(i as int, all.len() as int));
    }
    assert(all.subrange(0, i as int) =~= all);
    r
}

/// An operation without operands.
fn bare(name: &[u8]) -> (r: Operation)
    ensures
        plain_op(r, name@, Seq::empty()),
{
    let r = Operation { operator: copy_bytes(name), operands: Vec::new() };
    assert(r.operands@ =~= Seq::<Object>::empty());
    r
}

/// The operation that sets colour `c`.
fn color_operation(c: Color) -> (r: Operation)
    ensures
        color_op(r, c),
{
    let mut operands: Vec<Object> = Vec::new();
    match c {
        Color::Gray(a) => {
            operands.push(Object::Real(a));
            let g: [u8; 1] = [103];
            assert(g@ == op_g());
            assert(operands@ =~= seq![Object::Real(a)]);
            Operation { operator: copy_bytes(g.as_slice()), operands }
        },
        Color::Rgb(r, g, b) => {
            operands.push(Object::Real(r));
            operands.push(Object::Real(g));
            operands.push(Object::Real(b));
            let o: [u8; 2] = [114, 103];
            assert(o@ == op_rg());
            assert(operands@ =~= seq![Object::Real(r), Object::Real(g), Object::Real(b)]);
            Operation { operator: copy_bytes(o.as_slice()), operands }
        },
        Color::Cmyk(c1, m, y, k) => {
            operands.push(Object::Real(c1));
            operands.push(Object::Real(m));
            operands.push(Object::Real(y));
            operands.push(Object::Real(k));
            let o: [u8; 1] = [107];
            assert(o@ == op_k());
            assert(operands@ =~= seq![Object::Real(c1), Object::Real(m), Object::Real(y), Object::Real(k)]);
            Operation { operator: copy_bytes(o.as_slice()), operands }
        },
    }
}

/// The instructions `old` without their text-painting ones, followed by a marked "Tx" section
/// that shows `text` in `font` at offset (`TEXT_INSET`, `y`) thousandths.
pub fn text_appearance_operations(old: Vec<Operation>, font: &FontSpec, y: i64, text: &[u8]) -> (r: Vec<Operation>)
    requires
        -1_000_000_000_000_000 < font.size < 1_000_000_000_000_000,
    ensures
        regenerated(old@, r@, (font.name@, font.size as int, font.color), y as int, text@),
{
    let mut ops = strip_text_operations(old);
    let ghost k = ops@;
    let bmc: [u8; 3] = [66, 77, 67];
    let tx: [u8; 2] = [84, 120];
    let mut a1: Vec<Object> = Vec::new();
    a1.push(Object::Name(copy_bytes(tx.as_slice())));
    ops.push(Operation { operator: copy_bytes(bmc.as_slice()), operands: a1 });
    let q: [u8; 1] = [113];
    ops.push(bare(q.as_slice()));
    let bt: [u8; 2] = [66, 84];
    ops.push(bare(bt.as_slice()));
    let tf: [u8; 2] = [84, 102];
    let mut a2: Vec<Object> = Vec::new();
    a2.push(Object::Name(copy_bytes(font.name.as_slice())));
    a2.push(size_object(font.size));
    ops.push(Operation { operator: copy_bytes(tf.as_slice()), operands: a2 });
    ops.push(color_operation(font.color));
    let tm: [u8; 2] = [84, 109];
    let mut a3: Vec<Object> = Vec::new();
    a3.push(Object::Integer(1));
    a3.push(Object::Integer(0));
    a3.push(Object::Integer(0));
    a3.push(Object::Integer(1));
    a3.push(Object::Real(TEXT_INSET));
    a3.push(Object::Real(y));
    assert(a3@ =~= seq![Object::Integer(1), Object::Integer(0), Object::Integer(0), Object::Integer(1), Object::Real(TEXT_INSET), Object::Real(y)]);
    ops.push(Operation { operator: copy_bytes(tm.as_slice()), operands: a3 });
    let tj: [u8; 2] = [84, 106];
    let mut a4: Vec<Object> = Vec::new();
    a4.push(Object::String(copy_bytes(text), StringFormat::Literal));
    ops.push(Operation { operator: copy_bytes(tj.as_slice()), operands: a4 });
    let et: [u8; 2] = [69, 84];
    ops.push(bare(et.as_slice()));
    let qq: [u8; 1] = [81];
    ops.push(bare(qq.as_slice()));
    let emc: [u8; 3] = [69, 77, 67];
    ops.push(bare(emc.as_slice()));
    proof {
        let m = k.len() as int;
        let n = ops@;
        assert(n.subrange(0, m) =~= k);
        assert(bmc@ == seq![66u8, 77u8, 67u8] && tx@ == seq![84u8, 120u8]);
        assert(q@ == seq![113u8] && bt@ == seq![66u8, 84u8] && tf@ == op_tf());
        assert(tm@ == seq![84u8, 109u8] && tj@ == seq![84u8, 106u8]);
        assert(et@ == seq![69u8, 84u8] && qq@ == seq![81u8] && emc@ == seq![69u8, 77u8, 67u8]);
    }
    ops
}

/// `a / b` rounded toward zero.
fn trunc_div(a: i64, b: i64) -> (r: i64)
    requires
        b > 0,
        a > i64::MIN,
    ensures
        r as int == tdiv(a as int, b as int),
{
    if a >= 0 {
        a / b
    } else {
        -((-a) / b)
    }
}

/// The operand that gives a font size of `size` thousandths.
fn size_object(size: i64) -> (r: Object)
    requires
        -1_000_000_000_000_000 < size < 1_000_000_000_000_000,
    ensures
        r == size_operand(size as int),
{
    let whole = trunc_div(size, 1000);
    proof {
        assert(-1_000_000_000_000_000 < tdiv(size as int, 1000) < 1_000_000_000_000_000);
    }
    if whole * 1000 == size {
        Object::Integer(whole)
    } else {
        Object::Real(size)
    }
}

/// The vertical offset of the text, in thousandths.
pub fn text_offset(dy: i64, size: i64) -> (r: i64)
    requires
        -4_000_000_000_000_000 <= dy <= 4_000_000_000_000_000,
        -4_000_000_000_000_000 <= size <= 4_000_000_000_000_000,
    ensures
        r as int == text_y(dy as int, size as int),
{
    if dy > 0 {
        dy / 2 - trunc_div(2 * size, 5)
    } else {
        trunc_div(size, 2)
    }
}

} // verus!
