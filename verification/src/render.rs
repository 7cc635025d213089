//! Text forms of ranges and sets, for people to read.

use crate::definitions::{EOF_CODE, EPSILON_CODE};
use crate::interval::Interval;
use crate::interval_set::IntervalSet;
use crate::ranges::{lemma_normalized_head, normalized, total_length};
use crate::text::{decimal, join, joined, push_decimal, texts};
use vstd::prelude::*;
use vstd::string::StringExecFns;

verus! {

/// The character that a code stands for: the one whose number is the low
/// byte of the code.
pub open spec fn char_of_code(v: isize) -> char {
    (v as u8) as char
}

/// `start..stop`, both in decimal.
pub open spec fn plain_range_text(x: Interval) -> Seq<char> {
    decimal(x.start as int) + ".."@ + decimal(x.stop as int)
}

/// The text of one range of a set. A range of one integer is written as
/// that integer: `<EOF>` for the end-of-input code, else the character in
/// single quotes where the integers are character codes, else the number.
/// A longer range is written as its two ends with `..` between them, each
/// end a quoted character or a number in the same way.
pub open spec fn range_text(x: Interval, elems_are_char: bool) -> Seq<char> {
    if x.start == x.stop {
        if x.start == EOF_CODE {
            "<EOF>"@
        } else if elems_are_char {
            seq!['\'', char_of_code(x.start), '\'']
        } else {
            decimal(x.start as int)
        }
    } else {
        if elems_are_char {
            seq!['\'', char_of_code(x.start), '\'', '.', '.', '\'', char_of_code(x.stop), '\'']
        } else {
            plain_range_text(x)
        }
    }
}

/// The texts of the ranges of a list, in order.
pub open spec fn range_texts(s: Seq<Interval>, elems_are_char: bool) -> Seq<Seq<char>> {
    Seq::new(s.len(), |i: int| range_text(s[i], elems_are_char))
}

/// The text of a set by its ranges: the ranges separated by a comma and a
/// space, and the whole in braces when the set holds more than one integer.
pub open spec fn internal_text(s: Seq<Interval>, elems_are_char: bool) -> Seq<char> {
    let body = joined(range_texts(s, elems_are_char), ", "@);
    if total_length(s) > 1 {
        seq!['{'] + body + seq!['}']
    } else {
        body
    }
}

/// The name of the code `a`: `<EOF>` and `<EPSILON>` for the two reserved
/// codes; else the literal name at index `a` where the table has one that
/// is not empty; else the symbolic name at index `a` where the table
/// reaches that far; else the code in decimal.
pub open spec fn name_of_code(literal_names: Seq<String>, symbolic_names: Seq<String>, a: int) -> Seq<
    char,
> {
    if a == EOF_CODE {
        "<EOF>"@
    } else if a == EPSILON_CODE {
        "<EPSILON>"@
    } else if 0 <= a < literal_names.len() && literal_names[a]@.len() > 0 {
        literal_names[a]@
    } else if 0 <= a < symbolic_names.len() {
        symbolic_names[a]@
    } else {
        decimal(a)
    }
}

/// The names of the codes from `lo` to `hi`, both included, in ascending
/// order.
pub open spec fn names_between(
    literal_names: Seq<String>,
    symbolic_names: Seq<String>,
    lo: int,
    hi: int,
) -> Seq<Seq<char>> {
    Seq::new(
        if hi >= lo {
            (hi - lo + 1) as nat
        } else {
            0
        },
        |k: int| name_of_code(literal_names, symbolic_names, lo + k),
    )
}

/// The names of all the codes that the ranges of the list cover, range by
/// range.
pub open spec fn names_of(
    s: Seq<Interval>,
    literal_names: Seq<String>,
    symbolic_names: Seq<String>,
) -> Seq<Seq<char>>
    decreases s.len(),
{
    if s.len() == 0 {
        Seq::<Seq<char>>::empty()
    } else {
        names_of(s.drop_last(), literal_names, symbolic_names) + names_between(
            literal_names,
            symbolic_names,
            s.last().start as int,
            s.last().stop as int,
        )
    }
}

/// The text of a set by the names of its codes: one name alone, or several
/// separated by a comma and a space between `{ ` and ` }`.
pub open spec fn token_text(
    s: Seq<Interval>,
    literal_names: Seq<String>,
    symbolic_names: Seq<String>,
) -> Seq<char> {
    let names = names_of(s, literal_names, symbolic_names);
    if names.len() > 1 {
        "{ "@ + joined(names, ", "@) + " }"@
    } else {
        names[0]
    }
}

/// The text of a set: empty for the empty set; by names where a table of
/// names is given; else by ranges.
pub open spec fn verbose_text(
    s: Seq<Interval>,
    literal_names: Seq<String>,
    symbolic_names: Seq<String>,
    elems_are_char: bool,
) -> Seq<char> {
    if s.len() == 0 {
        Seq::<char>::empty()
    } else if literal_names.len() > 0 || symbolic_names.len() > 0 {
        token_text(s, literal_names, symbolic_names)
    } else {
        internal_text(s, elems_are_char)
    }
}

/// Each range of a normalized list has at least one integer, so the list
/// covers at least as many integers as it has ranges.
pub proof fn lemma_total_length_at_least(s: Seq<Interval>)
    requires
        normalized(s),
    ensures
        total_length(s) >= s.len(),
        s.len() == 1 ==> total_length(s) == s[0].spec_length(),
    decreases s.len(),
{
    if s.len() > 0 {
        let head = s.drop_last();
        assert(head =~= s.subrange(0, s.len() - 1));
        lemma_normalized_head(s, s.len() - 1);
        lemma_total_length_at_least(head);
        assert(s.last().well_formed());
        if s.len() == 1 {
            assert(total_length(head) == 0);
        }
    }
}

fn push_code_char(buf: &mut String, v: isize)
    ensures
        final(buf)@ == old(buf)@ + seq!['\'', char_of_code(v), '\''],
{
    let low: u8 = #[verifier::truncate] (v as u8);
    buf.push('\'');
    buf.push(low as char);
    buf.push('\'');
    assert(buf@ =~= old(buf)@ + seq!['\'', char_of_code(v), '\'']);
}

/// Writes one range of a set at the end of `buf`.
pub fn push_range(buf: &mut String, x: &Interval, elems_are_char: bool)
    ensures
        final(buf)@ == old(buf)@ + range_text(*x, elems_are_char),
{
    let start = x.start;
    let stop = x.stop;
    if start == stop {
        if start == EOF_CODE {
            buf.append("<EOF>");
        } else if elems_are_char {
            push_code_char(buf, start);
        } else {
            push_decimal(buf, start);
        }
    } else {
        if elems_are_char {
            push_code_char(buf, start);
            buf.push('.');
            buf.push('.');
            push_code_char(buf, stop);
            assert(buf@ =~= old(buf)@ + range_text(*x, elems_are_char));
        } else {
            push_decimal(buf, start);
            buf.append("..");
            push_decimal(buf, stop);
            assert(buf@ =~= old(buf)@ + range_text(*x, elems_are_char));
        }
    }
}

impl Interval {
    /// The range as `start..stop`.
    pub fn to_string(&self) -> (r: String)
        ensures
            r@ == plain_range_text(*self),
    {
        let mut buf = String::new();
        push_decimal(&mut buf, self.start);
        buf.append("..");
        push_decimal(&mut buf, self.stop);
        assert(buf@ =~= plain_range_text(*self));
        buf
    }
}

impl IntervalSet {
    /// The set by its ranges, with numbers for the integers.
    pub fn to_string(&self) -> (r: String)
        requires
            self.wf(),
        ensures
            r@ == internal_text(self.intervals@, false),
    {
        self.to_internal_string(false)
    }

    /// The text of the set: empty for the empty set; by the names of its
    /// codes where at least one of the two tables holds a name; else by its
    /// ranges, as numbers or as characters.
    pub fn string_verbose(
        &self,
        literal_names: &[String],
        symbolic_names: &[String],
        elems_are_char: bool,
    ) -> (r: String)
        requires
            self.wf(),
        ensures
            r@ == verbose_text(self.intervals@, literal_names@, symbolic_names@, elems_are_char),
    {
        if self.intervals.is_empty() {
            return String::new();
        } else if !literal_names.is_empty() || !symbolic_names.is_empty() {
            return self.to_token_string(literal_names, symbolic_names);
        }
        self.to_internal_string(elems_are_char)
    }

    /// The set by the names of its codes, every covered code in ascending
    /// order.
    pub fn to_token_string(&self, literal_names: &[String], symbolic_names: &[String]) -> (r:
        String)
        requires
            self.wf(),
            self.intervals@.len() > 0,
        ensures
            r@ == token_text(self.intervals@, literal_names@, symbolic_names@),
    {
        let mut names: Vec<String> = Vec::new();
        let n = self.intervals.len();
        let ghost s = self.intervals@;
        let ghost lit = literal_names@;
        let ghost sym = symbolic_names@;
        let mut i: usize = 0;
        proof {
            assert(s.subrange(0, 0) =~= Seq::<Interval>::empty());
            assert(texts(names@) =~= Seq::<Seq<char>>::empty());
        }
        while i < n
            invariant
                n == s.len(),
                s == self.intervals@,
                lit == literal_names@,
                sym == symbolic_names@,
                normalized(s),
                i <= n,
                texts(names@) =~= names_of(s.subrange(0, i as int), lit, sym),
            decreases n - i,
        {
            let x = self.intervals[i];
            let ghost head = texts(names@);
            let mut j: isize = x.start;
            proof {
                assert(x.well_formed());
                assert(s.subrange(0, i + 1).drop_last() =~= s.subrange(0, i as int));
                assert(head + names_between(lit, sym, x.start as int, x.start - 1) =~= head);
            }
            loop
                invariant_except_break
                    x.start <= j <= x.stop,
                    texts(names@) =~= head + names_between(lit, sym, x.start as int, j - 1),
                invariant
                    lit == literal_names@,
                    sym == symbolic_names@,
                ensures
                    texts(names@) =~= head + names_between(lit, sym, x.start as int, x.stop as int),
                decreases x.stop - j,
            {
                let name = self.element_name(literal_names, symbolic_names, j);
                proof {
                    assert(texts(names@.push(name)) =~= texts(names@).push(name@));
                    assert(names_between(lit, sym, x.start as int, j - 1).push(name@)
                        =~= names_between(lit, sym, x.start as int, j as int));
                    assert((head + names_between(lit, sym, x.start as int, j - 1)).push(name@)
                        =~= head + names_between(lit, sym, x.start as int, j as int));
                }
                names.push(name);
                if j == x.stop {
                    break ;
                }
                j += 1;
            }
            i += 1;
        }
        proof {
            assert(s.subrange(0, n as int) =~= s);
            assert(names@.len() == texts(names@).len());
            assert(s.drop_last().push(s.last()) =~= s);
            assert(s.last().well_formed());
            assert(names_of(s, lit, sym).len() > 0);
        }
        if names.len() > 1 {
            let mut buf = String::from_str("{ ");
            let inner = join(&names, ", ");
            buf.append(inner.as_str());
            buf.append(" }");
            return buf;
        }
        assert(texts(names@)[0] == names@[0]@);
        names[0].clone()
    }

    /// The set by its ranges: the ranges in order, separated by a comma and
    /// a space, in braces when the set holds more than one integer.
    pub fn to_internal_string(&self, elems_are_char: bool) -> (r: String)
        requires
            self.wf(),
        ensures
            r@ == internal_text(self.intervals@, elems_are_char),
    {
        let mut buf = String::new();
        let n = self.intervals.len();
        let ghost s = self.intervals@;
        let ghost all = range_texts(s, elems_are_char);
        let many = n > 1 || (n == 1 && self.intervals[0].start < self.intervals[0].stop);
        proof {
            lemma_total_length_at_least(s);
            if n == 1 {
                assert(s[0].well_formed());
            }
            assert(many == (total_length(s) > 1));
        }
        if many {
            buf.push('{');
        }
        let ghost open = buf@;
        let mut first_entry = true;
        let mut i: usize = 0;
        proof {
            assert(all.subrange(0, 0) =~= Seq::<Seq<char>>::empty());
            assert(open + joined(all.subrange(0, 0), ", "@) =~= open);
        }
        while i < n
            invariant
                n == s.len(),
                s == self.intervals@,
                all == range_texts(s, elems_are_char),
                i <= n,
                first_entry == (i == 0),
                buf@ == open + joined(all.subrange(0, i as int), ", "@),
            decreases n - i,
        {
            proof {
                let next = all.subrange(0, i + 1);
                assert(next.drop_last() =~= all.subrange(0, i as int));
                assert(next.last() == range_text(s[i as int], elems_are_char));
                if i > 0 {
                    assert(open + joined(all.subrange(0, i as int), ", "@) + ", "@ + next.last()
                        =~= open + joined(next, ", "@));
                }
            }
            if !first_entry {
                buf.append(", ");
            }
            first_entry = false;
            push_range(&mut buf, &self.intervals[i], elems_are_char);
            i += 1;
        }
        proof {
            assert(all.subrange(0, n as int) =~= all);
        }
        if many {
            buf.push('}');
            assert(buf@ =~= seq!['{'] + joined(all, ", "@) + seq!['}']);
        }
        buf
    }

    /// The name of the code `a`, by the two tables of names.
    pub fn element_name(&self, literal_names: &[String], symbolic_names: &[String], a: isize) -> (r:
        String)
        ensures
            r@ == name_of_code(literal_names@, symbolic_names@, a as int),
    {
        if a == EOF_CODE {
            String::from_str("<EOF>")
        } else if a == EPSILON_CODE {
            String::from_str("<EPSILON>")
        } else {
            if a >= 0 {
                let pos: usize = a as usize;
                if pos < literal_names.len() && !literal_names[pos].as_str().is_empty() {
                    return literal_names[pos].clone();
                }
                if pos < symbolic_names.len() {
                    return symbolic_names[pos].clone();
                }
            }
            let mut buf = String::new();
            push_decimal(&mut buf, a);
            assert(buf@ =~= decimal(a as int));
            buf
        }
    }
}

} // verus!
