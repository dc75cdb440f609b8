//! The result-line lexer for solvers that report decimal values: each line
//! is an identifier, whitespace, then a number ending before a final
//! `(obj:` annotation. The lexer hands the number out as text — turning it
//! into a machine float happens outside the verified core — and lines that
//! do not carry the annotation are skipped, like any other unmatched line.
//! This grammar and the exact-rational one are independent, solver-pinned
//! contracts; they are deliberately not unified.

use vstd::prelude::*;
use vstd::string::*;

use crate::solution::{is_space_char, is_word_char, lemma_prefix_len_is, prefix_len, strip_cr};

verus! {

/// The annotation that closes the captured number.
pub open spec fn obj_marker() -> Seq<char> {
    seq!['(', 'o', 'b', 'j', ':']
}

/// The marker occupies positions `p .. p + 5`.
pub open spec fn marker_at(s: Seq<char>, p: int) -> bool {
    0 <= p && p + 5 <= s.len() && s.subrange(p, p + 5) == obj_marker()
}

/// The start of the last marker occurrence, or minus one if there is none.
pub open spec fn last_marker(s: Seq<char>) -> int
    decreases s.len(),
{
    if s.len() < 5 {
        -1
    } else if marker_at(s, s.len() - 5) {
        s.len() - 5
    } else {
        last_marker(s.drop_last())
    }
}

/// Drops trailing whitespace.
pub open spec fn trim_end(s: Seq<char>) -> Seq<char>
    decreases s.len(),
{
    if s.len() > 0 && is_space_char(s.last()) {
        trim_end(s.drop_last())
    } else {
        s
    }
}

/// Drops leading whitespace.
pub open spec fn trim_start(s: Seq<char>) -> Seq<char> {
    let a = prefix_len(s, |c: char| is_space_char(c));
    if 0 <= a <= s.len() {
        s.skip(a)
    } else {
        s
    }
}

pub open spec fn trim_spaces(s: Seq<char>) -> Seq<char> {
    trim_end(trim_start(s))
}

/// One lexed name and number text.
pub struct FloatBindingModel {
    pub name: Seq<char>,
    pub value_text: Seq<char>,
}

/// What one decimal result line contributes: `Some` exactly when the line
/// starts with an identifier, then whitespace, then at least one character
/// before the last `(obj:` of the line; the captured text is the stretch
/// before that marker, trimmed of surrounding whitespace.
pub open spec fn float_line_match(l: Seq<char>) -> Option<FloatBindingModel> {
    let w = prefix_len(l, |c: char| is_word_char(c));
    let rest1 = l.skip(w);
    let sp = prefix_len(rest1, |c: char| is_space_char(c));
    let rest2 = rest1.skip(sp);
    let p = last_marker(rest2);
    if w == 0 || sp == 0 || p < 1 {
        Option::None
    } else {
        Option::Some(
            FloatBindingModel { name: l.take(w), value_text: trim_spaces(rest2.take(p)) },
        )
    }
}

/// Trimming trailing whitespace keeps exactly the prefix up to the last
/// non-whitespace character.
proof fn lemma_trim_end_is(s: Seq<char>, b: int)
    requires
        0 <= b <= s.len(),
        forall|j: int| b <= j < s.len() ==> is_space_char(#[trigger] s[j]),
        b > 0 ==> !is_space_char(s[b - 1]),
    ensures
        trim_end(s) == s.take(b),
    decreases s.len(),
{
    if s.len() > b {
        assert(is_space_char(s.last()));
        assert forall|j: int| b <= j < s.drop_last().len() implies is_space_char(
            #[trigger] s.drop_last()[j],
        ) by {
            assert(s.drop_last()[j] == s[j]);
        }
        lemma_trim_end_is(s.drop_last(), b);
        assert(s.drop_last().take(b) =~= s.take(b));
    } else {
        assert(s.take(b) =~= s);
    }
}

/// One lexed name and number text, as returned to the caller.
pub struct FloatBinding {
    pub name: String,
    pub value_text: String,
}

impl View for FloatBinding {
    type V = FloatBindingModel;

    open spec fn view(&self) -> FloatBindingModel {
        FloatBindingModel { name: self.name@, value_text: self.value_text@ }
    }
}

pub open spec fn opt_float_view(o: Option<FloatBinding>) -> Option<FloatBindingModel> {
    match o {
        Option::Some(b) => Option::Some(b@),
        Option::None => Option::None,
    }
}

fn word_at(line: &str, i: usize) -> (b: bool)
    requires
        i < line@.len(),
    ensures
        b == is_word_char(line@[i as int]),
{
    let c = line.get_char(i);
    let u = c as u32;
    (97 <= u && u <= 122) || (65 <= u && u <= 90) || (48 <= u && u <= 57) || c == '_'
}

fn space_at(line: &str, i: usize) -> (b: bool)
    requires
        i < line@.len(),
    ensures
        b == is_space_char(line@[i as int]),
{
    let c = line.get_char(i);
    c == ' ' || c == '\t' || c == '\r' || c == '\u{b}' || c == '\u{c}'
}

/// Whether the marker ends at absolute position `e` of the line.
fn marker_ending_at(line: &str, e: usize) -> (b: bool)
    requires
        5 <= e <= line@.len(),
    ensures
        b == (line@.subrange(e - 5, e as int) == obj_marker()),
{
    let hit = line.get_char(e - 5) == '(' && line.get_char(e - 4) == 'o' && line.get_char(e - 3)
        == 'b' && line.get_char(e - 2) == 'j' && line.get_char(e - 1) == ':';
    proof {
        if hit {
            assert(line@.subrange(e - 5, e as int) =~= obj_marker());
        } else {
            assert(line@.subrange(e - 5, e as int) != obj_marker()) by {
                if line@.subrange(e - 5, e as int) == obj_marker() {
                    assert(line@[e - 5] == obj_marker()[0]);
                    assert(line@[e - 4] == obj_marker()[1]);
                    assert(line@[e - 3] == obj_marker()[2]);
                    assert(line@[e - 2] == obj_marker()[3]);
                    assert(line@[e - 1] == obj_marker()[4]);
                }
            }
        }
    }
    hit
}

/// Lexes one decimal result line; `None` means the line is skipped.
#[verifier::loop_isolation(false)]
pub fn parse_float_line(line: &str) -> (r: Option<FloatBinding>)
    ensures
        opt_float_view(r) == float_line_match(line@),
{
    let ghost l = line@;
    let n = line.unicode_len();
    // identifier
    let mut w: usize = 0;
    while w < n && word_at(line, w)
        invariant
            w <= n,
            forall|j: int| 0 <= j < w ==> is_word_char(#[trigger] l[j]),
        decreases n - w,
    {
        w = w + 1;
    }
    proof {
        lemma_prefix_len_is(l, |c: char| is_word_char(c), w as int);
    }
    if w == 0 {
        return Option::None;
    }
    // whitespace
    let mut d0: usize = w;
    while d0 < n && space_at(line, d0)
        invariant
            w <= d0 <= n,
            forall|j: int| w <= j < d0 ==> is_space_char(#[trigger] l[j]),
        decreases n - d0,
    {
        d0 = d0 + 1;
    }
    let ghost rest1 = l.skip(w as int);
    proof {
        assert forall|j: int| 0 <= j < d0 - w implies is_space_char(#[trigger] rest1[j]) by {
            assert(rest1[j] == l[w + j]);
        }
        assert((d0 - w) < rest1.len() ==> !is_space_char(rest1[d0 - w]));
        lemma_prefix_len_is(rest1, |c: char| is_space_char(c), d0 - w);
    }
    if d0 == w {
        return Option::None;
    }
    let ghost rest2 = rest1.skip((d0 - w) as int);
    proof {
        assert(rest2 =~= l.skip(d0 as int));
    }
    // the last marker: scan ends from the right
    let mut b: usize = n;
    let mut found: usize = 0;
    let mut have_marker = false;
    proof {
        assert(rest2.take((n - d0) as int) =~= rest2);
    }
    while !have_marker && b - d0 >= 5
        invariant
            d0 <= b <= n,
            !have_marker ==> last_marker(rest2) == last_marker(rest2.take((b - d0) as int)),
            have_marker ==> d0 <= found && found + 5 <= b <= n && last_marker(rest2) == found
                - d0,
        decreases (if have_marker { 0int } else { b + 1 }),
    {
        proof {
            assert(rest2.take((b - d0) as int).len() == b - d0 >= 5);
            assert forall|j: int| 0 <= j < b - d0 implies #[trigger] rest2.take(
                (b - d0) as int,
            )[j] == l[d0 + j] by {
                assert(rest2[j] == l[d0 + j]);
            }
            assert(rest2.take((b - d0) as int).subrange(b - d0 - 5, (b - d0) as int) =~= l.subrange(
                b - 5,
                b as int,
            ));
        }
        if marker_ending_at(line, b) {
            found = b - 5;
            have_marker = true;
            proof {
                assert(marker_at(rest2.take((b - d0) as int), b - d0 - 5));
                assert(last_marker(rest2.take((b - d0) as int)) == b - d0 - 5);
            }
        } else {
            proof {
                assert(!marker_at(rest2.take((b - d0) as int), b - d0 - 5)) by {
                    if marker_at(rest2.take((b - d0) as int), b - d0 - 5) {
                        assert(rest2.take((b - d0) as int).subrange(
                            b - d0 - 5,
                            (b - d0) as int,
                        ) == obj_marker());
                    }
                }
                assert(rest2.take((b - d0) as int).drop_last() =~= rest2.take((b - d0 - 1) as int));
            }
            b = b - 1;
        }
    }
    if !have_marker {
        proof {
            assert(rest2.take((b - d0) as int).len() < 5);
            assert(last_marker(rest2) == -1);
        }
        return Option::None;
    }
    if found == d0 {
        // The marker follows the whitespace immediately: no number text.
        return Option::None;
    }
    // trim the captured stretch rest2[0 .. found - d0]
    let ghost piece = rest2.take((found - d0) as int);
    let mut a: usize = d0;
    while a < found && space_at(line, a)
        invariant
            d0 <= a <= found,
            forall|j: int| d0 <= j < a ==> is_space_char(#[trigger] l[j]),
        decreases found - a,
    {
        a = a + 1;
    }
    proof {
        assert forall|j: int| 0 <= j < a - d0 implies is_space_char(#[trigger] piece[j]) by {
            assert(piece[j] == l[d0 + j]);
        }
        assert((a - d0) < piece.len() ==> !is_space_char(piece[a - d0]));
        lemma_prefix_len_is(piece, |c: char| is_space_char(c), a - d0);
        assert(trim_start(piece) =~= l.subrange(a as int, found as int));
    }
    let mut e: usize = found;
    while e > a && space_at(line, e - 1)
        invariant
            a <= e <= found,
            forall|j: int| e <= j < found ==> is_space_char(#[trigger] l[j]),
        decreases e,
    {
        e = e - 1;
    }
    let ghost started = l.subrange(a as int, found as int);
    proof {
        assert forall|j: int| e - a <= j < started.len() implies is_space_char(
            #[trigger] started[j],
        ) by {
            assert(started[j] == l[a + j]);
        }
        if e > a {
            assert(!is_space_char(started[e - a - 1]));
        }
        lemma_trim_end_is(started, (e - a) as int);
        assert(started.take((e - a) as int) =~= l.subrange(a as int, e as int));
    }
    let name_str = line.substring_char(0, w);
    let value_str = line.substring_char(a, e);
    proof {
        assert(name_str@ =~= l.take(w as int));
        assert(piece =~= rest2.take(last_marker(rest2)));
    }
    let result = FloatBinding {
        name: String::from_str(name_str),
        value_text: String::from_str(value_str),
    };
    proof {
        assert(float_line_match(l) == Option::Some(result@));
    }
    Option::Some(result)
}

/// The entries one optional lexed line contributes.
pub open spec fn opt_float_seq(o: Option<FloatBindingModel>) -> Seq<FloatBindingModel> {
    match o {
        Option::Some(e) => seq![e],
        Option::None => Seq::<FloatBindingModel>::empty(),
    }
}

/// Every lexed entry of a decimal result text: the text split at newlines,
/// each line matched against the decimal pattern, matches kept in order.
pub open spec fn float_parse_lines(text: Seq<char>) -> Seq<FloatBindingModel>
    decreases text.len(),
{
    if text.len() == 0 {
        Seq::<FloatBindingModel>::empty()
    } else {
        let k = prefix_len(text, |c: char| c != '\n');
        if k < 0 || k >= text.len() {
            opt_float_seq(float_line_match(text))
        } else {
            opt_float_seq(float_line_match(strip_cr(text.take(k)))) + float_parse_lines(
                text.skip(k + 1),
            )
        }
    }
}

fn nl_at(text: &str, i: usize) -> (b: bool)
    requires
        i < text@.len(),
    ensures
        b == (text@[i as int] == '\n'),
{
    text.get_char(i) == '\n'
}

fn carriage_at(text: &str, i: usize) -> (b: bool)
    requires
        i < text@.len(),
    ensures
        b == (text@[i as int] == '\r'),
{
    text.get_char(i) == '\r'
}

/// Lexes a whole decimal result text: each matching line yields a name and
/// the number text before its final annotation; unmatched lines — banners,
/// status text — are skipped silently.
#[verifier::loop_isolation(false)]
pub fn parse_float_solution(text: &str) -> (entries: Vec<FloatBinding>)
    ensures
        entries@.map_values(|b: FloatBinding| b@) == float_parse_lines(text@),
{
    let ghost t = text@;
    let n = text.unicode_len();
    let mut entries: Vec<FloatBinding> = Vec::new();
    let mut pos: usize = 0;
    proof {
        assert(entries@.map_values(|b: FloatBinding| b@) =~= Seq::<FloatBindingModel>::empty());
        assert(t.skip(0) =~= t);
        assert(Seq::<FloatBindingModel>::empty() + float_parse_lines(t) =~= float_parse_lines(t));
    }
    while pos < n
        invariant
            pos <= n,
            float_parse_lines(t) == entries@.map_values(|b: FloatBinding| b@)
                + float_parse_lines(t.skip(pos as int)),
        decreases n - pos,
    {
        let ghost ents_pre = entries@.map_values(|b: FloatBinding| b@);
        let mut k: usize = pos;
        while k < n && !nl_at(text, k)
            invariant
                pos <= k <= n,
                forall|j: int| pos <= j < k ==> t[j] != '\n',
            decreases n - k,
        {
            k = k + 1;
        }
        let ghost rest = t.skip(pos as int);
        proof {
            assert forall|j: int| 0 <= j < k - pos implies (#[trigger] rest[j]) != '\n' by {
                assert(rest[j] == t[pos + j]);
            }
            assert(k < n ==> rest[k - pos] == '\n');
            lemma_prefix_len_is(rest, |c: char| c != '\n', k - pos);
        }
        let mut line_end: usize = k;
        if k < n && k > pos {
            if carriage_at(text, k - 1) {
                line_end = k - 1;
            }
        }
        let line = text.substring_char(pos, line_end);
        proof {
            if k < n {
                assert(rest.take(k - pos) =~= t.subrange(pos as int, k as int));
                assert(line@ =~= strip_cr(rest.take(k - pos)));
                assert(rest.skip(k - pos + 1) =~= t.skip(k + 1));
            } else {
                assert(line@ =~= rest);
            }
        }
        let r = parse_float_line(line);
        match r {
            Option::Some(b) => {
                entries.push(b);
                proof {
                    assert(entries@.map_values(|b: FloatBinding| b@) =~= ents_pre + opt_float_seq(
                        float_line_match(line@),
                    ));
                }
            },
            Option::None => {
                proof {
                    assert(entries@.map_values(|b: FloatBinding| b@) + opt_float_seq(
                        float_line_match(line@),
                    ) =~= ents_pre);
                }
            },
        }
        let next: usize = if k < n {
            k + 1
        } else {
            n
        };
        proof {
            if k < n {
                assert(float_parse_lines(rest) == opt_float_seq(float_line_match(strip_cr(
                    rest.take(k - pos),
                ))) + float_parse_lines(rest.skip(k - pos + 1)));
                assert(ents_pre + opt_float_seq(float_line_match(line@)) + float_parse_lines(
                    t.skip(next as int),
                ) =~= ents_pre + float_parse_lines(rest));
            } else {
                assert(float_parse_lines(rest) == opt_float_seq(float_line_match(rest)));
                assert(t.skip(next as int) =~= Seq::<char>::empty());
                assert(ents_pre + opt_float_seq(float_line_match(line@)) + float_parse_lines(
                    t.skip(next as int),
                ) =~= ents_pre + float_parse_lines(rest));
            }
        }
        pos = next;
    }
    proof {
        assert(t.skip(n as int) =~= Seq::<char>::empty());
        assert(entries@.map_values(|b: FloatBinding| b@) + float_parse_lines(t.skip(n as int))
            =~= entries@.map_values(|b: FloatBinding| b@));
    }
    entries
}


} // verus!
