//! The catalogue of field rules: each takes the trimmed text of a field and
//! gives the value to store, or refuses it.
use vstd::prelude::*;
use crate::datafield::{DataFieldError, FieldFault, PostError, PostFault, outcome_view};
use crate::text::{
    chars_of, contains_char, decimal, decimal_string, lemma_trim_of_trimmed,
    lemma_trim_shape, owned, parse_u32, parse_u32_of, push_range, string_of_range, trim,
    trim_bounds,
};

verus! {

/// What `&` and `,` become in a cleaned value; any other character stays.
pub open spec fn replacement(c: char) -> Seq<char> {
    if c == '&' {
        seq!['a', 'n', 'd']
    } else if c == ',' {
        seq![' ']
    } else {
        seq![c]
    }
}

/// `s` with each `&` replaced by `and` and each `,` by a space.
pub open spec fn replaced(s: Seq<char>) -> Seq<char>
    decreases s.len(),
{
    if s.len() == 0 {
        s
    } else {
        replaced(s.drop_last()) + replacement(s.last())
    }
}

/// The result of `cleanup` on `v`.
pub open spec fn cleanup_spec(v: Seq<char>) -> Result<Seq<char>, FieldFault> {
    if v.contains('"') {
        Err(FieldFault::FieldContainsQuote(v))
    } else {
        Ok(trim(replaced(v)))
    }
}

proof fn lemma_replaced_chars(s: Seq<char>, c: char)
    requires
        replaced(s).contains(c),
    ensures
        c == 'a' || c == 'n' || c == 'd' || c == ' ' || (s.contains(c) && c != '&' && c != ','),
    decreases s.len(),
{
    if s.len() > 0 {
        let k = choose|k: int| 0 <= k < replaced(s).len() && replaced(s)[k] == c;
        let head = replaced(s.drop_last());
        if k < head.len() {
            assert(head[k] == c);
            lemma_replaced_chars(s.drop_last(), c);
            if s.drop_last().contains(c) {
                let m = choose|m: int| 0 <= m < s.drop_last().len() && s.drop_last()[m] == c;
                assert(s[m] == c);
            }
        } else {
            assert(replacement(s.last())[k - head.len()] == c);
            assert(s[s.len() - 1] == s.last());
        }
    }
}

proof fn lemma_replaced_plain(s: Seq<char>)
    requires
        !s.contains('&'),
        !s.contains(','),
    ensures
        replaced(s) == s,
    decreases s.len(),
{
    if s.len() > 0 {
        assert(!s.drop_last().contains('&')) by {
            if s.drop_last().contains('&') {
                let m = choose|m: int| 0 <= m < s.drop_last().len() && s.drop_last()[m] == '&';
                assert(s[m] == '&');
            }
        }
        assert(!s.drop_last().contains(',')) by {
            if s.drop_last().contains(',') {
                let m = choose|m: int| 0 <= m < s.drop_last().len() && s.drop_last()[m] == ',';
                assert(s[m] == ',');
            }
        }
        lemma_replaced_plain(s.drop_last());
        assert(s[s.len() - 1] == s.last());
        assert(s.drop_last().push(s.last()) == s);
    }
}

/// Cleaning a cleaned value changes nothing: every value that `cleanup`
/// gives is one that it gives back unchanged.
pub proof fn cleanup_idempotent(v: Seq<char>)
    requires
        cleanup_spec(v) is Ok,
    ensures
        cleanup_spec(cleanup_spec(v)->Ok_0) == cleanup_spec(v),
{
    let w = replaced(v);
    let r = trim(w);
    lemma_trim_shape(w);
    let (i, j) = choose|i: int, j: int| 0 <= i <= j <= w.len() && r == w.subrange(i, j);
    assert forall|c: char| r.contains(c) implies #[trigger] w.contains(c) by {
        let m = choose|m: int| 0 <= m < r.len() && r[m] == c;
        assert(w[i + m] == c);
    }
    assert(!r.contains('"')) by {
        if r.contains('"') {
            lemma_replaced_chars(v, '"');
        }
    }
    assert(!r.contains('&')) by {
        if r.contains('&') {
            lemma_replaced_chars(v, '&');
        }
    }
    assert(!r.contains(',')) by {
        if r.contains(',') {
            lemma_replaced_chars(v, ',');
        }
    }
    lemma_replaced_plain(r);
    lemma_trim_of_trimmed(r);
}

/// Turns each `&` of `value` into `and` and each `,` into a space, then
/// removes whitespace from both ends. A value holding a double quote is
/// refused.
pub fn cleanup(value: String) -> (r: Result<String, DataFieldError>)
    ensures
        outcome_view(r) == cleanup_spec(value@),
{
    let v = chars_of(value.as_str());
    if contains_char(&v, '"') {
        return Err(DataFieldError::FieldContainsQuote(value));
    }
    let mut w: Vec<char> = Vec::new();
    let mut i: usize = 0;
    proof {
        assert(v@.take(0) == Seq::<char>::empty());
    }
    while i < v.len()
        invariant
            i <= v@.len(),
            w@ == replaced(v@.take(i as int)),
        decreases v.len() - i,
    {
        let c = v[i];
        if c == '&' {
            w.push('a');
            w.push('n');
            w.push('d');
        } else if c == ',' {
            w.push(' ');
        } else {
            w.push(c);
        }
        proof {
            let u = v@.take(i + 1);
            assert(u.drop_last() == v@.take(i as int));
            assert(u.last() == c);
            assert(w@ == replaced(v@.take(i as int)) + replacement(c));
        }
        i = i + 1;
    }
    proof {
        assert(v@.take(i as int) == v@);
    }
    let (from, to) = trim_bounds(&w);
    Ok(string_of_range(&w, from, to))
}


/// Whether `a` starts with the prefix of excluded accounts, `54777`.
pub open spec fn excluded_account(a: Seq<char>) -> bool {
    seq!['5', '4', '7', '7', '7'].is_prefix_of(a)
}

/// Whether the first two characters of `a` are one of `51`, `52`, `53`, `54`.
pub open spec fn allowed_account_prefix(a: Seq<char>) -> bool {
    a.len() >= 2 && a[0] == '5' && (a[1] == '1' || a[1] == '2' || a[1] == '3' || a[1] == '4')
}

/// The result of `validate_acct` on `v`.
pub open spec fn validate_acct_spec(v: Seq<char>) -> Result<Seq<char>, FieldFault> {
    match cleanup_spec(v) {
        Err(e) => Err(e),
        Ok(a) => if a.len() < 10 || excluded_account(a) || !allowed_account_prefix(a) {
            Err(FieldFault::Problem(PostFault::InvalidOrExcludedAccountID(a)))
        } else {
            Ok(a)
        },
    }
}

/// Cleans `value` and checks that it is an account identifier: at least ten
/// characters, not starting with `54777`, and starting with `51` to `54`.
pub fn validate_acct(value: String) -> (r: Result<String, DataFieldError>)
    ensures
        outcome_view(r) == validate_acct_spec(value@),
{
    let acct = match cleanup(value) {
        Ok(a) => a,
        Err(e) => return Err(e),
    };
    let a = chars_of(acct.as_str());
    let n = a.len();
    let excluded = n >= 5 && a[0] == '5' && a[1] == '4' && a[2] == '7' && a[3] == '7' && a[4] == '7';
    proof {
        if n >= 5 {
            assert(excluded == (a@.take(5) == seq!['5', '4', '7', '7', '7'])) by {
                if a@.take(5) == seq!['5', '4', '7', '7', '7'] {
                    assert(a@.take(5)[2] == a@[2]);
                }
                if excluded {
                    assert(a@.take(5) =~= seq!['5', '4', '7', '7', '7']);
                }
            }
        }
    }
    let allowed = n >= 2 && a[0] == '5' && (a[1] == '1' || a[1] == '2' || a[1] == '3' || a[1]
        == '4');
    if n < 10 || excluded || !allowed {
        Err(DataFieldError::Problem(PostError::InvalidOrExcludedAccountID(acct)))
    } else {
        Ok(acct)
    }
}

/// Whether `p` holds `NOT`.
pub open spec fn holds_not(p: Seq<char>) -> bool {
    exists|i: int| 0 <= i && i + 3 <= p.len() && #[trigger] p[i] == 'N' && p[i + 1] == 'O' && p[i + 2] == 'T'
}

/// `p` without the two filler characters that a print key of its length
/// carries, or `p` itself.
pub open spec fn compacted_key(p: Seq<char>) -> Seq<char> {
    if holds_not(p) {
        p
    } else if p.len() == 14 {
        p.take(2) + p.skip(4)
    } else if p.len() == 15 {
        p.take(3) + p.skip(5)
    } else if p.len() == 16 {
        p.take(4) + p.skip(6)
    } else {
        p
    }
}

/// The result of `fix_printkey` on `v`.
pub open spec fn fix_printkey_spec(v: Seq<char>) -> Result<Seq<char>, FieldFault> {
    match cleanup_spec(v) {
        Err(e) => Err(e),
        Ok(p) => Ok(compacted_key(p)),
    }
}

fn has_not(v: &Vec<char>) -> (b: bool)
    ensures
        b == holds_not(v@),
{
    let mut i: usize = 0;
    while v.len() >= 3 && i <= v.len() - 3
        invariant
            i <= v@.len(),
            forall|k: int| 0 <= k < i && k + 3 <= v@.len() ==> !(#[trigger] v@[k] == 'N' && v@[k + 1] == 'O' && v@[k + 2] == 'T'),
        decreases v.len() - i,
    {
        if v[i] == 'N' && v[i + 1] == 'O' && v[i + 2] == 'T' {
            return true;
        }
        i = i + 1;
    }
    false
}

/// Cleans `value` and normalises a print key: keys of 14, 15 or 16 characters
/// lose the two filler characters after their first 2, 3 or 4 characters.
/// Keys that hold `NOT`, and keys of other lengths, are kept as they are.
pub fn fix_printkey(value: String) -> (r: Result<String, DataFieldError>)
    ensures
        outcome_view(r) == fix_printkey_spec(value@),
{
    let printkey = match cleanup(value) {
        Ok(p) => p,
        Err(e) => return Err(e),
    };
    let p = chars_of(printkey.as_str());
    let n = p.len();
    if has_not(&p) {
        return Ok(printkey);
    }
    let keep: usize = if n == 14 {
        2
    } else if n == 15 {
        3
    } else if n == 16 {
        4
    } else {
        return Ok(printkey);
    };
    let mut npk = string_of_range(&p, 0, keep);
    push_range(&mut npk, &p, keep + 2, n);
    proof {
        assert(p@.subrange(0, keep as int) == p@.take(keep as int));
        assert(p@.subrange(keep + 2, n as int) == p@.skip(keep + 2));
    }
    Ok(npk)
}

/// The result of `fix_meter_size` on `v`.
pub open spec fn fix_meter_size_spec(v: Seq<char>) -> Result<Seq<char>, FieldFault> {
    match cleanup_spec(v) {
        Err(e) => Err(e),
        Ok(m) => if m == "0"@ || m == "0.625"@ {
            Ok("0.625"@)
        } else if m == "5"@ || m == "0.75"@ {
            Ok("0.75"@)
        } else if m == "7"@ || m == "1.5"@ {
            Ok("1.5"@)
        } else if m == "1"@ || m == "2"@ || m == "3"@ || m == "4"@ || m == "6"@ || m == "8"@
            || m == ""@ {
            Ok(m)
        } else {
            Err(FieldFault::Problem(PostFault::InvalidMeterSize(m)))
        },
    }
}

/// Cleans `value` and decodes a meter size: the codes `0`, `5` and `7` stand
/// for `0.625`, `0.75` and `1.5`; those sizes, the sizes `1`, `2`, `3`, `4`,
/// `6`, `8` and the empty value stand for themselves; anything else is refused.
pub fn fix_meter_size(value: String) -> (r: Result<String, DataFieldError>)
    ensures
        outcome_view(r) == fix_meter_size_spec(value@),
{
    let m = match cleanup(value) {
        Ok(m) => m,
        Err(e) => return Err(e),
    };
    if m == owned("0") || m == owned("0.625") {
        Ok(owned("0.625"))
    } else if m == owned("5") || m == owned("0.75") {
        Ok(owned("0.75"))
    } else if m == owned("7") || m == owned("1.5") {
        Ok(owned("1.5"))
    } else if m == owned("1") || m == owned("2") || m == owned("3") || m == owned("4") || m
        == owned("6") || m == owned("8") || m == owned("") {
        Ok(m)
    } else {
        Err(DataFieldError::Problem(PostError::InvalidMeterSize(m)))
    }
}

/// The result of `decode_special` on `v`.
pub open spec fn decode_special_spec(v: Seq<char>) -> Result<Seq<char>, FieldFault> {
    match cleanup_spec(v) {
        Err(e) => Err(e),
        Ok(c) => if c == "S"@ {
            Ok("Shut"@)
        } else if c == "E"@ {
            Ok("Elderly Exemption"@)
        } else if c == "X"@ {
            Ok("Exempt"@)
        } else if c == "O"@ {
            Ok("Outside User"@)
        } else if c == "R"@ {
            Ok("Removed"@)
        } else {
            Err(FieldFault::Problem(PostFault::InvalidSpecialCode(c)))
        },
    }
}

/// Cleans `value` and expands a special-status code: `S` Shut, `E` Elderly
/// Exemption, `X` Exempt, `O` Outside User, `R` Removed. Any other code is
/// refused.
pub fn decode_special(value: String) -> (r: Result<String, DataFieldError>)
    ensures
        outcome_view(r) == decode_special_spec(value@),
{
    let special = match cleanup(value) {
        Ok(c) => c,
        Err(e) => return Err(e),
    };
    if special == owned("S") {
        Ok(owned("Shut"))
    } else if special == owned("E") {
        Ok(owned("Elderly Exemption"))
    } else if special == owned("X") {
        Ok(owned("Exempt"))
    } else if special == owned("O") {
        Ok(owned("Outside User"))
    } else if special == owned("R") {
        Ok(owned("Removed"))
    } else {
        Err(DataFieldError::Problem(PostError::InvalidSpecialCode(special)))
    }
}

/// The value that `trim_zeroes` gives for `v`.
pub open spec fn without_leading_zeroes(v: Seq<char>) -> Seq<char> {
    match parse_u32(v) {
        Some(x) => if x > 0 {
            decimal(x as nat)
        } else {
            Seq::empty()
        },
        None => Seq::empty(),
    }
}

/// Reads `value` as a 32-bit unsigned number and renders it without leading
/// zeroes. Zero, and anything that is not such a number, becomes the empty
/// value. Never fails.
pub fn trim_zeroes(value: String) -> (r: Result<String, DataFieldError>)
    ensures
        outcome_view(r) == Ok::<Seq<char>, FieldFault>(without_leading_zeroes(value@)),
{
    let v = chars_of(value.as_str());
    match parse_u32_of(&v) {
        Some(x) => if x > 0 {
            Ok(decimal_string(x as u128))
        } else {
            Ok(String::new())
        },
        None => Ok(String::new()),
    }
}

/// The post-processing rule of a field.
#[derive(Clone, Copy, Debug, PartialEq, Eq, Structural)]
pub enum PostProcess {
    /// The trimmed text as it is.
    Identity,
    /// `cleanup`.
    Cleanup,
    /// `validate_acct`.
    ValidateAcct,
    /// `fix_printkey`.
    FixPrintkey,
    /// `fix_meter_size`.
    FixMeterSize,
    /// `decode_special`.
    DecodeSpecial,
    /// `trim_zeroes`.
    TrimZeroes,
}

impl PostProcess {
    /// What the rule gives for `v`.
    pub open spec fn spec_apply(self, v: Seq<char>) -> Result<Seq<char>, FieldFault> {
        match self {
            PostProcess::Identity => Ok(v),
            PostProcess::Cleanup => cleanup_spec(v),
            PostProcess::ValidateAcct => validate_acct_spec(v),
            PostProcess::FixPrintkey => fix_printkey_spec(v),
            PostProcess::FixMeterSize => fix_meter_size_spec(v),
            PostProcess::DecodeSpecial => decode_special_spec(v),
            PostProcess::TrimZeroes => Ok(without_leading_zeroes(v)),
        }
    }

    /// Runs the rule on `value`.
    pub fn apply(&self, value: String) -> (r: Result<String, DataFieldError>)
        ensures
            outcome_view(r) == self.spec_apply(value@),
    {
        match self {
            PostProcess::Identity => Ok(value),
            PostProcess::Cleanup => cleanup(value),
            PostProcess::ValidateAcct => validate_acct(value),
            PostProcess::FixPrintkey => fix_printkey(value),
            PostProcess::FixMeterSize => fix_meter_size(value),
            PostProcess::DecodeSpecial => decode_special(value),
            PostProcess::TrimZeroes => trim_zeroes(value),
        }
    }
}

} // verus!
