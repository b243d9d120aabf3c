use vstd::prelude::*;

use crate::text::{chars_of, equals, string_of, trim, trim_chars};

verus! {

/// What `install` is asked to bring in.
#[derive(Debug, PartialEq, Eq)]
pub enum InstallTarget {
    /// A template file of the working directory.
    CurrentDir,
    /// A template of the registry, by name.
    Named(String),
}

/// Why a template name is refused.
#[derive(Debug, PartialEq, Eq)]
pub enum NameError {
    Empty,
    HasSpace,
}

/// Checks the name given to `install`: trimmed, it must be non-empty and
/// hold no space; `.` stands for the working directory.
pub fn check_template_name(name: &str) -> (r: Result<InstallTarget, NameError>)
    ensures
        trim(name@).len() == 0 <==> r is Err && r->Err_0 is Empty,
        trim(name@).len() > 0 && trim(name@).contains(' ') <==> r is Err && r->Err_0 is HasSpace,
        r matches Ok(InstallTarget::CurrentDir) <==> trim(name@) == seq!['.'],
        r matches Ok(InstallTarget::Named(n)) ==> n@ == trim(name@) && n@ != seq!['.'],
        r is Ok <==> trim(name@).len() > 0 && !trim(name@).contains(' '),
{
    let c = chars_of(name);
    let t = trim_chars(&c);
    if t.len() == 0 {
        return Err(NameError::Empty);
    }
    let mut i: usize = 0;
    while i < t.len()
        invariant
            i <= t.len(),
            t.len() > 0,
            t@ == trim(name@),
            forall|j: int| 0 <= j < i ==> t@[j] != ' ',
        decreases t.len() - i,
    {
        if t[i] == ' ' {
            assert(t@[i as int] == ' ');
            assert(t@.contains(' '));
            return Err(NameError::HasSpace);
        }
        i = i + 1;
    }
    proof {
        reveal_strlit(".");
        assert("."@ =~= seq!['.']);
    }
    if equals(&t, ".") {
        Ok(InstallTarget::CurrentDir)
    } else {
        Ok(InstallTarget::Named(string_of(&t)))
    }
}

/// The number that the decimal digits `s` spell.
pub open spec fn dec_value(s: Seq<char>) -> int
    decreases s.len(),
{
    if s.len() == 0 {
        0
    } else {
        dec_value(s.drop_last()) * 10 + (s.last() as int - '0' as int)
    }
}

/// `s` is made of decimal digits only.
pub open spec fn all_digits(s: Seq<char>) -> bool {
    forall|k: int| 0 <= k < s.len() ==> '0' <= #[trigger] s[k] <= '9'
}

/// The digits of a number as `usize`'s parser reads it: an optional `+`,
/// then the digits.
pub open spec fn number_digits(s: Seq<char>) -> Seq<char> {
    if s.len() > 0 && s[0] == '+' {
        s.subrange(1, s.len() as int)
    } else {
        s
    }
}

/// The `usize` that `s` spells in decimal, if it spells one.
pub open spec fn parse_usize(s: Seq<char>) -> Option<int> {
    let d = number_digits(s);
    if d.len() > 0 && all_digits(d) && dec_value(d) <= usize::MAX {
        Some(dec_value(d))
    } else {
        None
    }
}

proof fn lemma_dec_value_grows(s: Seq<char>, i: int)
    requires
        all_digits(s),
        0 <= i <= s.len(),
    ensures
        dec_value(s.subrange(0, i)) <= dec_value(s),
        0 <= dec_value(s.subrange(0, i)),
    decreases s.len() - i,
{
    if i < s.len() {
        lemma_dec_value_grows(s, i + 1);
        assert(s.subrange(0, i + 1).drop_last() =~= s.subrange(0, i));
        assert('0' <= s[i] <= '9');
    } else {
        assert(s.subrange(0, i) =~= s);
        lemma_dec_value_nonneg(s);
    }
}

proof fn lemma_dec_value_nonneg(s: Seq<char>)
    requires
        all_digits(s),
    ensures
        0 <= dec_value(s),
    decreases s.len(),
{
    if s.len() > 0 {
        lemma_dec_value_nonneg(s.drop_last());
        assert('0' <= s[s.len() - 1] <= '9');
    }
}

/// Reads `s` as a decimal `usize`, as `usize`'s parser does: an optional
/// `+`, then one or more digits, with a value that fits.
pub fn parse_number(s: &[char]) -> (r: Option<usize>)
    ensures
        r matches Some(n) ==> parse_usize(s@) == Some(n as int),
        r is None ==> parse_usize(s@) is None,
{
    let start: usize = if s.len() > 0 && s[0] == '+' { 1 } else { 0 };
    let ghost d = number_digits(s@);
    assert(d =~= s@.subrange(start as int, s.len() as int));
    if start >= s.len() {
        return None;
    }
    let mut v: usize = 0;
    let mut i: usize = start;
    while i < s.len()
        invariant
            start <= i <= s.len(),
            d == number_digits(s@),
            d == s@.subrange(start as int, s.len() as int),
            forall|k: int| start <= k < i ==> '0' <= #[trigger] s@[k] <= '9',
            v as int == dec_value(s@.subrange(start as int, i as int)),
        decreases s.len() - i,
    {
        let c = s[i];
        if !('0' <= c && c <= '9') {
            assert(d[i - start] == c);
            assert(!all_digits(d)) by {
                assert(!('0' <= d[i - start] <= '9'));
            }
            return None;
        }
        let digit: usize = (c as u32 - '0' as u32) as usize;
        assert(digit as int == c as int - '0' as int);
        assert(s@.subrange(start as int, i + 1).last() == c);
        assert(s@.subrange(start as int, i + 1).drop_last() =~= s@.subrange(start as int, i as int));
        if v > (usize::MAX - digit) / 10 {
            proof {
                assert(v * 10 + digit > usize::MAX) by (nonlinear_arith)
                    requires
                        v > (usize::MAX - digit) / 10,
                        digit <= 9;
                assert forall|k: int| 0 <= k < i + 1 - start implies '0' <= #[trigger] s@.subrange(start as int, i + 1)[k] <= '9' by {
                    assert(s@.subrange(start as int, i + 1)[k] == s@[start + k]);
                }
                let all_ok = all_digits(d);
                assert(dec_value(s@.subrange(start as int, i + 1)) == v * 10 + digit);
                if all_ok {
                    assert(d.subrange(0, i + 1 - start) =~= s@.subrange(start as int, i + 1));
                    lemma_dec_value_grows(d, i + 1 - start);
                    assert(dec_value(d) > usize::MAX);
                }
            }
            return None;
        }
        proof {
            assert(v * 10 + digit <= usize::MAX) by (nonlinear_arith)
                requires
                    v <= (usize::MAX - digit) / 10,
                    digit <= 9;
        }
        v = v * 10 + digit;
        i = i + 1;
    }
    assert(all_digits(d)) by {
        assert forall|k: int| 0 <= k < d.len() implies '0' <= #[trigger] d[k] <= '9' by {
            assert(d[k] == s@[start + k]);
        }
    }
    Some(v)
}

/// Why a selection is refused.
#[derive(Debug, PartialEq, Eq)]
pub enum SelectionError {
    /// The answer is no number.
    NotANumber,
    /// The number names no listed template.
    OutOfRange,
}

/// The index of the template that the 1-based answer `selection` picks
/// among `count` listed ones (0 is read as 1).
pub fn select_template(selection: &str, count: usize) -> (r: Result<usize, SelectionError>)
    ensures
        parse_usize(trim(selection@)) is None <==> r == Err::<usize, SelectionError>(SelectionError::NotANumber),
        parse_usize(trim(selection@)) matches Some(n) ==> ({
            let idx = if n == 0 { 0 } else { n - 1 };
            &&& idx >= count ==> r == Err::<usize, SelectionError>(SelectionError::OutOfRange)
            &&& idx < count ==> r == Ok::<usize, SelectionError>(idx as usize)
        }),
{
    let t = trim_chars(&chars_of(selection));
    match parse_number(&t) {
        None => Err(SelectionError::NotANumber),
        Some(n) => {
            let idx = if n == 0 { 0 } else { n - 1 };
            if idx >= count {
                Err(SelectionError::OutOfRange)
            } else {
                Ok(idx)
            }
        },
    }
}

} // verus!
