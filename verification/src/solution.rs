//! The importer and the solution it builds: solver result text is read
//! line by line under a fixed lexical pattern — an identifier, whitespace,
//! and an integer or integer/integer numeral — and lines that do not match
//! are skipped silently, so solver banners do not break parsing. The
//! resulting name-to-value mapping is immutable and queried term-wise.

use vstd::prelude::*;
use vstd::string::*;

use crate::expression::{Expression, Term, TermModel};
use crate::rat::{
    rat_add_fits, rat_add_s, rat_mul_fits, rat_mul_s, rat_one, rat_zero, Rat, RatModel,
};
use crate::variable::var_display;

verus! {

/// An identifier character: an ASCII letter, digit or underscore.
pub open spec fn is_word_char(c: char) -> bool {
    ||| ('a' as u32) <= (c as u32) && (c as u32) <= ('z' as u32)
    ||| ('A' as u32) <= (c as u32) && (c as u32) <= ('Z' as u32)
    ||| ('0' as u32) <= (c as u32) && (c as u32) <= ('9' as u32)
    ||| c == '_'
}

/// Horizontal whitespace between the identifier and the numeral.
pub open spec fn is_space_char(c: char) -> bool {
    c == ' ' || c == '\t' || c == '\r' || c == '\u{b}' || c == '\u{c}'
}

pub open spec fn is_digit_char(c: char) -> bool {
    ('0' as u32) <= (c as u32) && (c as u32) <= ('9' as u32)
}

pub open spec fn digit_val(c: char) -> int {
    (c as u32) - ('0' as u32)
}

/// The value of a digit sequence read in base ten.
pub open spec fn digits_val(s: Seq<char>) -> int
    decreases s.len(),
{
    if s.len() == 0 {
        0
    } else {
        digits_val(s.drop_last()) * 10 + digit_val(s.last())
    }
}

pub open spec fn pow10(k: nat) -> int
    decreases k,
{
    if k == 0 {
        1
    } else {
        10 * pow10((k - 1) as nat)
    }
}

/// The length of the longest prefix whose characters all satisfy the
/// predicate.
pub open spec fn prefix_len(s: Seq<char>, pred: spec_fn(char) -> bool) -> int
    decreases s.len(),
{
    if s.len() == 0 || !pred(s[0]) {
        0
    } else {
        1 + prefix_len(s.skip(1), pred)
    }
}

/// The prefix length is pinned by any position whose earlier characters
/// all satisfy the predicate and which itself does not (or is the end).
pub proof fn lemma_prefix_len_is(s: Seq<char>, pred: spec_fn(char) -> bool, k: int)
    requires
        0 <= k <= s.len(),
        forall|j: int| 0 <= j < k ==> pred(s[j]),
        k < s.len() ==> !pred(s[k]),
    ensures
        prefix_len(s, pred) == k,
    decreases s.len(),
{
    if s.len() == 0 {
    } else if k == 0 {
    } else {
        assert(pred(s[0]));
        assert forall|j: int| 0 <= j < k - 1 implies pred(s.skip(1)[j]) by {
            assert(s.skip(1)[j] == s[j + 1]);
        }
        assert(k - 1 < s.skip(1).len() ==> !pred(s.skip(1)[k - 1]));
        lemma_prefix_len_is(s.skip(1), pred, k - 1);
    }
}

pub proof fn lemma_pow10_pos(k: nat)
    ensures
        pow10(k) >= 1,
    decreases k,
{
    if k > 0 {
        lemma_pow10_pos((k - 1) as nat);
    }
}

pub proof fn lemma_pow10_mono(a: nat, b: nat)
    requires
        a <= b,
    ensures
        0 < pow10(a) <= pow10(b),
    decreases b,
{
    if a == b {
        lemma_pow10_pos(a);
    } else {
        lemma_pow10_mono(a, (b - 1) as nat);
        lemma_pow10_pos((b - 1) as nat);
    }
}

/// Ten to the thirty-eighth still fits the machine representation: a
/// numeral of at most thirty-eight digits is always representable.
pub proof fn lemma_pow10_cap()
    ensures
        pow10(38) <= i128::MAX as int,
{
    reveal_with_fuel(pow10, 40);
    assert(pow10(38) == 100000000000000000000000000000000000000int);
}

/// One parsed name-value pair.
pub struct BindingModel {
    pub name: Seq<char>,
    pub value: RatModel,
}

/// What one result line contributes: `Some` exactly when the line starts
/// with an identifier, then whitespace, then a numeral `d+` or `d+/d+` of
/// at most thirty-eight digits apiece whose denominator, if given, is not
/// zero; everything after the numeral is ignored. Any other line — a
/// banner, a status line — contributes nothing.
pub open spec fn line_match(l: Seq<char>) -> Option<BindingModel> {
    let w = prefix_len(l, |c: char| is_word_char(c));
    let rest1 = l.skip(w);
    let sp = prefix_len(rest1, |c: char| is_space_char(c));
    let rest2 = rest1.skip(sp);
    let nd = prefix_len(rest2, |c: char| is_digit_char(c));
    if w == 0 || sp == 0 || nd == 0 || nd > 38 {
        Option::None
    } else {
        let num = digits_val(rest2.take(nd));
        let rest3 = rest2.skip(nd);
        let dd = if rest3.len() >= 1 && rest3[0] == '/' {
            prefix_len(rest3.skip(1), |c: char| is_digit_char(c))
        } else {
            0
        };
        if dd > 38 {
            Option::None
        } else if dd > 0 {
            let den = digits_val(rest3.skip(1).take(dd));
            if den == 0 {
                Option::None
            } else {
                Option::Some(
                    BindingModel { name: l.take(w), value: RatModel { n: num, d: den } },
                )
            }
        } else {
            Option::Some(BindingModel { name: l.take(w), value: RatModel { n: num, d: 1 } })
        }
    }
}

/// One parsed name-value pair, as stored in a solution.
pub struct Binding {
    pub name: String,
    pub value: Rat,
}

impl View for Binding {
    type V = BindingModel;

    open spec fn view(&self) -> BindingModel {
        BindingModel { name: self.name@, value: self.value@ }
    }
}

pub open spec fn opt_binding_view(o: Option<Binding>) -> Option<BindingModel> {
    match o {
        Option::Some(b) => Option::Some(b@),
        Option::None => Option::None,
    }
}

fn word_char_at(line: &str, i: usize) -> (b: bool)
    requires
        i < line@.len(),
    ensures
        b == is_word_char(line@[i as int]),
{
    let c = line.get_char(i);
    let u = c as u32;
    (97 <= u && u <= 122) || (65 <= u && u <= 90) || (48 <= u && u <= 57) || c == '_'
}

fn space_char_at(line: &str, i: usize) -> (b: bool)
    requires
        i < line@.len(),
    ensures
        b == is_space_char(line@[i as int]),
{
    let c = line.get_char(i);
    c == ' ' || c == '\t' || c == '\r' || c == '\u{b}' || c == '\u{c}'
}

fn digit_char_at(line: &str, i: usize) -> (b: bool)
    requires
        i < line@.len(),
    ensures
        b == is_digit_char(line@[i as int]),
{
    let c = line.get_char(i);
    let u = c as u32;
    48 <= u && u <= 57
}

/// Reads the digit run `l[from..from + count]` in base ten; the caller has
/// established that it is all digits and short enough to fit.
#[verifier::loop_isolation(false)]
fn read_digits(line: &str, from: usize, to: usize) -> (v: u128)
    requires
        from <= to,
        to <= line@.len(),
        to - from <= 38,
        forall|j: int| from <= j < to ==> is_digit_char(#[trigger] line@[j]),
    ensures
        v == digits_val(line@.subrange(from as int, to as int)),
        v <= i128::MAX,
{
    let mut v: u128 = 0;
    let mut i: usize = from;
    proof {
        assert(line@.subrange(from as int, from as int) =~= Seq::<char>::empty());
        lemma_pow10_cap();
    }
    while i < to
        invariant
            from <= i <= to,
            v == digits_val(line@.subrange(from as int, i as int)),
            v < pow10((i - from) as nat),
        decreases to - i,
    {
        let c = line.get_char(i);
        let u: u32 = c as u32;
        proof {
            assert(is_digit_char(line@[i as int]));
        }
        let d: u128 = (u - 48) as u128;
        proof {
            assert(d == digit_val(line@[i as int]));
            lemma_pow10_mono(((i - from) + 1) as nat, 38);
            assert(pow10(((i - from) + 1) as nat) == 10 * pow10((i - from) as nat));
            assert(line@.subrange(from as int, i + 1).drop_last() =~= line@.subrange(
                from as int,
                i as int,
            ));
            assert(line@.subrange(from as int, i + 1).last() == line@[i as int]);
        }
        v = v * 10 + d;
        i = i + 1;
    }
    proof {
        lemma_pow10_mono((to - from) as nat, 38);
    }
    v
}

/// Scans from `from` while the position satisfies the class picked by
/// `class` (word, space, digit), returning the first index that fails.
#[verifier::loop_isolation(false)]
fn scan_class(line: &str, from: usize, n: usize, class: u8) -> (end: usize)
    requires
        n == line@.len(),
        from <= n,
        1 <= class <= 3,
    ensures
        from <= end <= n,
        forall|j: int| from <= j < end ==> class_pred(class)(#[trigger] line@[j]),
        end < n ==> !class_pred(class)(line@[end as int]),
{
    let mut i: usize = from;
    while i < n
        invariant
            from <= i <= n,
            forall|j: int| from <= j < i ==> class_pred(class)(#[trigger] line@[j]),
        decreases n - i,
    {
        let hit = if class == 1 {
            word_char_at(line, i)
        } else if class == 2 {
            space_char_at(line, i)
        } else {
            digit_char_at(line, i)
        };
        if !hit {
            return i;
        }
        i = i + 1;
    }
    i
}

/// The character class a scan looks for.
pub open spec fn class_pred(class: u8) -> spec_fn(char) -> bool {
    if class == 1 {
        |c: char| is_word_char(c)
    } else if class == 2 {
        |c: char| is_space_char(c)
    } else {
        |c: char| is_digit_char(c)
    }
}

/// Parses one result line under the fixed lexical pattern; `None` means
/// the line is skipped.
pub fn parse_line(line: &str) -> (r: Option<Binding>)
    ensures
        opt_binding_view(r) == line_match(line@),
        match r {
            Option::Some(b) => b.value@.wf(),
            Option::None => true,
        },
{
    let ghost l = line@;
    let n = line.unicode_len();
    let w = scan_class(line, 0, n, 1);
    proof {
        lemma_prefix_len_is(l, |c: char| is_word_char(c), w as int);
    }
    if w == 0 {
        return Option::None;
    }
    let sp_end = scan_class(line, w, n, 2);
    proof {
        assert forall|j: int| 0 <= j < sp_end - w implies (class_pred(2))(
            #[trigger] l.skip(w as int)[j],
        ) by {
            assert(l.skip(w as int)[j] == l[w + j]);
        }
        assert((sp_end - w) < l.skip(w as int).len() ==> !(class_pred(2))(
            l.skip(w as int)[sp_end - w],
        ));
        lemma_prefix_len_is(l.skip(w as int), |c: char| is_space_char(c), sp_end - w);
    }
    if sp_end == w {
        return Option::None;
    }
    let nd_end = scan_class(line, sp_end, n, 3);
    let ghost rest2 = l.skip(w as int).skip((sp_end - w) as int);
    proof {
        assert(rest2 =~= l.skip(sp_end as int));
        assert forall|j: int| 0 <= j < nd_end - sp_end implies (class_pred(3))(
            #[trigger] rest2[j],
        ) by {
            assert(rest2[j] == l[sp_end + j]);
        }
        assert((nd_end - sp_end) < rest2.len() ==> !(class_pred(3))(rest2[nd_end - sp_end]));
        lemma_prefix_len_is(rest2, |c: char| is_digit_char(c), nd_end - sp_end);
    }
    if nd_end == sp_end || nd_end - sp_end > 38 {
        return Option::None;
    }
    let num = read_digits(line, sp_end, nd_end);
    proof {
        assert(l.subrange(sp_end as int, nd_end as int) =~= rest2.take(nd_end - sp_end));
    }
    let ghost rest3 = rest2.skip(nd_end - sp_end);
    proof {
        assert(rest3 =~= l.skip(nd_end as int));
    }
    let has_slash = nd_end < n && line.get_char(nd_end) == '/';
    let mut den: u128 = 1;
    if has_slash {
        let dd_end = scan_class(line, nd_end + 1, n, 3);
        proof {
            assert(rest3.skip(1) =~= l.skip(nd_end + 1));
            assert forall|j: int| 0 <= j < dd_end - (nd_end + 1) implies (class_pred(3))(
                #[trigger] rest3.skip(1)[j],
            ) by {
                assert(rest3.skip(1)[j] == l[nd_end + 1 + j]);
            }
            assert((dd_end - (nd_end + 1)) < rest3.skip(1).len() ==> !(class_pred(3))(
                rest3.skip(1)[dd_end - (nd_end + 1)],
            ));
            lemma_prefix_len_is(rest3.skip(1), |c: char| is_digit_char(c), dd_end - (nd_end + 1));
        }
        if dd_end - (nd_end + 1) > 38 {
            return Option::None;
        }
        if dd_end > nd_end + 1 {
            den = read_digits(line, nd_end + 1, dd_end);
            proof {
                assert(l.subrange(nd_end + 1, dd_end as int) =~= rest3.skip(1).take(
                    dd_end - (nd_end + 1),
                ));
            }
            if den == 0 {
                return Option::None;
            }
        }
    } else {
        proof {
            if rest3.len() >= 1 {
                assert(rest3[0] == l[nd_end as int]);
            }
        }
    }
    let name_str = line.substring_char(0, w);
    proof {
        assert(name_str@ =~= l.take(w as int));
    }
    let name = String::from_str(name_str);
    let value = Rat::new(num as i128, den as i128);
    let result = Binding { name, value };
    proof {
        assert(num <= i128::MAX);
        assert(den >= 1 && den <= i128::MAX);
        assert(line_match(l) == Option::Some(result@));
    }
    Option::Some(result)
}

/// The entries one optional match contributes.
pub open spec fn opt_seq(o: Option<BindingModel>) -> Seq<BindingModel> {
    match o {
        Option::Some(e) => seq![e],
        Option::None => Seq::<BindingModel>::empty(),
    }
}

/// A line terminated by a newline loses one trailing carriage return
/// before matching.
pub open spec fn strip_cr(l: Seq<char>) -> Seq<char> {
    if l.len() > 0 && l.last() == '\r' {
        l.drop_last()
    } else {
        l
    }
}

/// Every entry a result text denotes: the text split at newlines, each
/// line matched against the lexical pattern, matches kept in order.
pub open spec fn parse_lines(text: Seq<char>) -> Seq<BindingModel>
    decreases text.len(),
{
    if text.len() == 0 {
        Seq::<BindingModel>::empty()
    } else {
        let k = prefix_len(text, |c: char| c != '\n');
        if k < 0 || k >= text.len() {
            opt_seq(line_match(text))
        } else {
            opt_seq(line_match(strip_cr(text.take(k)))) + parse_lines(text.skip(k + 1))
        }
    }
}

/// All values a solution stores are well-formed rationals.
pub open spec fn sol_wf(entries: Seq<BindingModel>) -> bool {
    forall|i: int| 0 <= i < entries.len() ==> (#[trigger] entries[i]).value.wf()
}

/// The value a solution gives a name: the latest entry for the name wins,
/// and a name the solver never reported reads as exact zero.
pub open spec fn lookup(entries: Seq<BindingModel>, name: Seq<char>) -> RatModel
    decreases entries.len(),
{
    if entries.len() == 0 {
        rat_zero()
    } else if entries.last().name == name {
        entries.last().value
    } else {
        lookup(entries.drop_last(), name)
    }
}

/// What a term multiplies the coefficient with: the variable's looked-up
/// value, or exact one for a constant term.
pub open spec fn term_source(entries: Seq<BindingModel>, t: TermModel) -> RatModel {
    match t.var {
        Option::Some(v) => lookup(entries, var_display(v)),
        Option::None => rat_one(),
    }
}

/// One term's contribution to an expression's value.
pub open spec fn term_value(entries: Seq<BindingModel>, t: TermModel) -> RatModel {
    rat_mul_s(term_source(entries, t), t.coeff)
}

pub open spec fn term_fits(entries: Seq<BindingModel>, t: TermModel) -> bool {
    rat_mul_fits(term_source(entries, t), t.coeff)
}

/// Left-to-right summation of the remaining terms' contributions.
pub open spec fn value_fold(entries: Seq<BindingModel>, acc: RatModel, ts: Seq<TermModel>) -> RatModel
    decreases ts.len(),
{
    if ts.len() == 0 {
        acc
    } else {
        value_fold(entries, rat_add_s(acc, term_value(entries, ts[0])), ts.skip(1))
    }
}

pub open spec fn value_fold_fits(
    entries: Seq<BindingModel>,
    acc: RatModel,
    ts: Seq<TermModel>,
) -> bool
    decreases ts.len(),
{
    if ts.len() == 0 {
        true
    } else {
        &&& term_fits(entries, ts[0])
        &&& rat_add_fits(acc, term_value(entries, ts[0]))
        &&& value_fold_fits(entries, rat_add_s(acc, term_value(entries, ts[0])), ts.skip(1))
    }
}

/// The value of a whole term sequence under a solution: term contributions
/// summed from the first on; the empty expression reads as exact zero.
pub open spec fn expr_value(entries: Seq<BindingModel>, ts: Seq<TermModel>) -> RatModel {
    if ts.len() == 0 {
        rat_zero()
    } else {
        value_fold(entries, term_value(entries, ts[0]), ts.skip(1))
    }
}

/// Every product and running sum of the evaluation fits the machine
/// representation.
pub open spec fn get_value_fits(entries: Seq<BindingModel>, ts: Seq<TermModel>) -> bool {
    if ts.len() == 0 {
        true
    } else {
        term_fits(entries, ts[0]) && value_fold_fits(entries, term_value(entries, ts[0]), ts.skip(1))
    }
}

fn newline_at(text: &str, i: usize) -> (b: bool)
    requires
        i < text@.len(),
    ensures
        b == (text@[i as int] == '\n'),
{
    text.get_char(i) == '\n'
}

fn cr_at(text: &str, i: usize) -> (b: bool)
    requires
        i < text@.len(),
    ensures
        b == (text@[i as int] == '\r'),
{
    text.get_char(i) == '\r'
}

/// An immutable mapping from variable display name to exact value, built
/// once from solver result text and queried read-only thereafter.
pub struct Solution {
    values: Vec<Binding>,
}

impl View for Solution {
    type V = Seq<BindingModel>;

    closed spec fn view(&self) -> Seq<BindingModel> {
        self.values@.map_values(|b: Binding| b@)
    }
}

impl Solution {
    pub open spec fn wf(&self) -> bool {
        sol_wf(self@)
    }

    /// Parses solver result text: each matching line binds a name to an
    /// exact rational; unmatched lines — banners, status text — are
    /// skipped silently.
    #[verifier::loop_isolation(false)]
    pub fn from_result_text(text: &str) -> (s: Solution)
        ensures
            s@ == parse_lines(text@),
            s.wf(),
    {
        let ghost t = text@;
        let n = text.unicode_len();
        let mut values: Vec<Binding> = Vec::new();
        let mut pos: usize = 0;
        proof {
            assert(values@.map_values(|b: Binding| b@) =~= Seq::<BindingModel>::empty());
            assert(t.skip(0) =~= t);
            assert(Seq::<BindingModel>::empty() + parse_lines(t) =~= parse_lines(t));
        }
        while pos < n
            invariant
                pos <= n,
                parse_lines(t) == values@.map_values(|b: Binding| b@) + parse_lines(
                    t.skip(pos as int),
                ),
                sol_wf(values@.map_values(|b: Binding| b@)),
            decreases n - pos,
        {
            let ghost vals_pre = values@.map_values(|b: Binding| b@);
            let mut k: usize = pos;
            while k < n && !newline_at(text, k)
                invariant
                    pos <= k <= n,
                    forall|j: int| pos <= j < k ==> t[j] != '\n',
                decreases n - k,
            {
                k = k + 1;
            }
            let ghost rest = t.skip(pos as int);
            proof {
                assert forall|j: int| 0 <= j < k - pos implies (#[trigger] rest[j]) != '\n' by {
                    assert(rest[j] == t[pos + j]);
                }
                assert(k < n ==> rest[k - pos] == '\n');
                lemma_prefix_len_is(rest, |c: char| c != '\n', k - pos);
            }
            let mut line_end: usize = k;
            if k < n && k > pos {
                if cr_at(text, k - 1) {
                    line_end = k - 1;
                }
            }
            let line = text.substring_char(pos, line_end);
            proof {
                if k < n {
                    assert(rest.take(k - pos) =~= t.subrange(pos as int, k as int));
                    assert(line@ =~= strip_cr(rest.take(k - pos)));
                    assert(rest.skip(k - pos + 1) =~= t.skip(k + 1));
                } else {
                    assert(line@ =~= rest);
                }
            }
            let r = parse_line(line);
            match r {
                Option::Some(b) => {
                    values.push(b);
                    proof {
                        assert(values@.map_values(|b: Binding| b@) =~= vals_pre + opt_seq(
                            line_match(line@),
                        ));
                    }
                },
                Option::None => {
                    proof {
                        assert(values@.map_values(|b: Binding| b@) + opt_seq(line_match(line@))
                            =~= vals_pre);
                    }
                },
            }
            let next: usize = if k < n {
                k + 1
            } else {
                n
            };
            proof {
                if k < n {
                    assert(parse_lines(rest) == opt_seq(line_match(strip_cr(rest.take(k - pos))))
                        + parse_lines(rest.skip(k - pos + 1)));
                    assert(vals_pre + opt_seq(line_match(line@)) + parse_lines(t.skip(next as int))
                        =~= vals_pre + parse_lines(rest));
                } else {
                    assert(parse_lines(rest) == opt_seq(line_match(rest)));
                    assert(t.skip(next as int) =~= Seq::<char>::empty());
                    assert(vals_pre + opt_seq(line_match(line@)) + parse_lines(t.skip(next as int))
                        =~= vals_pre + parse_lines(rest));
                }
            }
            pos = next;
        }
        proof {
            assert(t.skip(n as int) =~= Seq::<char>::empty());
            assert(values@.map_values(|b: Binding| b@) + parse_lines(t.skip(n as int))
                =~= values@.map_values(|b: Binding| b@));
        }
        Solution { values }
    }

    /// The stored value of a display name: the latest parsed line for the
    /// name wins; an unknown name reads as exact zero.
    #[verifier::loop_isolation(false)]
    pub fn value_of(&self, name: &String) -> (r: Rat)
        requires
            self.wf(),
        ensures
            r@ == lookup(self@, name@),
            r@.wf(),
    {
        let mut i: usize = self.values.len();
        proof {
            assert(self@.len() == i);
            assert(self@.take(i as int) =~= self@);
        }
        while i > 0
            invariant
                i <= self@.len(),
                lookup(self@, name@) == lookup(self@.take(i as int), name@),
            decreases i,
        {
            let b = &self.values[i - 1];
            proof {
                assert(b@ == self@[i - 1]);
                assert(self@.take(i as int).last() == self@[i - 1]);
            }
            if b.name == *name {
                proof {
                    assert(b@.value.wf());
                }
                return b.value;
            }
            proof {
                assert(self@.take(i as int).drop_last() =~= self@.take(i - 1));
            }
            i = i - 1;
        }
        proof {
            assert(self@.take(0) =~= Seq::<BindingModel>::empty());
        }
        Rat::zero()
    }

    /// One term's contribution: the variable's looked-up value (or one,
    /// for a constant term) times the coefficient.
    fn term_contribution(&self, t: &Term) -> (r: Rat)
        requires
            self.wf(),
            t@.coeff.wf(),
            term_fits(self@, t@),
        ensures
            r@ == term_value(self@, t@),
            r@.wf(),
    {
        match &t.var {
            Option::Some(v) => {
                let name = v.name();
                let val = self.value_of(&name);
                val.mul(t.coeff)
            },
            Option::None => {
                let one = Rat::one();
                one.mul(t.coeff)
            },
        }
    }

    /// The value of an expression under this solution: term contributions
    /// summed left to right; the empty expression reads as exact zero. A
    /// variable the solver never reported contributes zero — callers who
    /// must tell that apart from a true zero should check the text.
    #[verifier::loop_isolation(false)]
    pub fn get_value(&self, e: &Expression) -> (r: Rat)
        requires
            self.wf(),
            e.wf(),
            get_value_fits(self@, e@),
        ensures
            r@ == expr_value(self@, e@),
            r@.wf(),
    {
        let n = e.term_count();
        if n == 0 {
            return Rat::zero();
        }
        let first = e.term_at(0);
        proof {
            assert(e@[0].coeff.wf());
        }
        let mut acc = self.term_contribution(first);
        let mut i: usize = 1;
        while i < n
            invariant
                1 <= i <= n,
                acc@.wf(),
                expr_value(self@, e@) == value_fold(self@, acc@, e@.skip(i as int)),
                value_fold_fits(self@, acc@, e@.skip(i as int)),
            decreases n - i,
        {
            let t = e.term_at(i);
            proof {
                assert(e@[i as int].coeff.wf());
                assert(e@.skip(i as int)[0] == e@[i as int]);
                assert(e@.skip(i as int).skip(1) =~= e@.skip(i + 1));
            }
            let c = self.term_contribution(t);
            acc = acc.add(c);
            i = i + 1;
        }
        proof {
            assert(e@.skip(n as int) =~= Seq::<TermModel>::empty());
        }
        acc
    }
}

/// A line that does not match the pattern — a banner, a status line —
/// leaves the parsed entries exactly as they would be without it.
pub proof fn lemma_unmatched_line_ignored(l: Seq<char>, rest: Seq<char>)
    requires
        forall|j: int| 0 <= j < l.len() ==> (#[trigger] l[j]) != '\n',
        line_match(strip_cr(l)) is None,
    ensures
        parse_lines(l + seq!['\n'] + rest) == parse_lines(rest),
{
    let text = l + seq!['\n'] + rest;
    assert forall|j: int| 0 <= j < l.len() implies (#[trigger] text[j]) != '\n' by {
        assert(text[j] == l[j]);
    }
    assert(text[l.len() as int] == '\n');
    lemma_prefix_len_is(text, |c: char| c != '\n', l.len() as int);
    assert(text.take(l.len() as int) =~= l);
    assert(text.skip(l.len() as int + 1) =~= rest);
    assert(opt_seq(line_match(strip_cr(l))) + parse_lines(rest) =~= parse_lines(rest));
}


} // verus!
