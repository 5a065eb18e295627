//! Strings as sequences of characters: conversion, equality and ordering.

use vstd::prelude::*;
use vstd::utf8::{encode_utf8, encode_utf8_decode_utf8};
use crate::types::{opt_text, texts};

verus! {

/// `String::push`: the character is appended at the end, the rest is kept.
#[verifier::external_body]
pub(crate) fn push_char(s: &mut String, c: char)
    ensures
        final(s)@ == old(s)@.push(c),
{
    s.push(c)
}

/// The characters of `s`, in order.
pub fn chars_of(s: &str) -> (out: Vec<char>)
    ensures
        out@ == s@,
{
    let mut out: Vec<char> = Vec::new();
    for c in it: s.chars()
        invariant
            out@ == it.seq().take(it.index() as int),
            it.seq() == s@,
    {
        out.push(c);
    }
    out
}

/// The string made of `chars`, in order.
pub fn string_of(chars: &Vec<char>) -> (out: String)
    ensures
        out@ == chars@,
{
    let mut out = String::new();
    let mut i: usize = 0;
    while i < chars.len()
        invariant
            i <= chars.len(),
            out@ == chars@.take(i as int),
        decreases chars.len() - i,
    {
        push_char(&mut out, chars[i]);
        i += 1;
    }
    out
}

/// The characters of `text` from `from` up to `to`, as a string.
pub fn copy_range(text: &Vec<char>, from: usize, to: usize) -> (out: String)
    requires
        from <= to <= text.len(),
    ensures
        out@ == text@.subrange(from as int, to as int),
{
    let mut out = String::new();
    let mut k: usize = from;
    assert(out@ =~= text@.subrange(from as int, k as int));
    while k < to
        invariant
            from <= k <= to <= text.len(),
            out@ == text@.subrange(from as int, k as int),
        decreases to - k,
    {
        push_char(&mut out, text[k]);
        assert(text@.subrange(from as int, k + 1) =~= text@.subrange(from as int, k as int).push(text@[k as int]));
        k += 1;
    }
    out
}

/// A copy of an optional string.
pub fn clone_opt(text: &Option<String>) -> (out: Option<String>)
    ensures
        opt_text(out) == opt_text(*text),
{
    match text {
        Some(t) => Some(t.clone()),
        None => None,
    }
}

/// Two strings hold the same characters exactly when their UTF-8 bytes agree.
pub proof fn lemma_bytes_decide_text(a: Seq<char>, b: Seq<char>)
    ensures
        (encode_utf8(a) == encode_utf8(b)) <==> (a == b),
{
    encode_utf8_decode_utf8(a);
    encode_utf8_decode_utf8(b);
}

/// Whether `a` and `b` hold the same text.
pub fn str_eq(a: &str, b: &str) -> (same: bool)
    ensures
        same == (a@ == b@),
{
    let x = a.as_bytes();
    let y = b.as_bytes();
    proof {
        lemma_bytes_decide_text(a@, b@);
    }
    if x.len() != y.len() {
        return false;
    }
    let mut i: usize = 0;
    while i < x.len()
        invariant
            i <= x.len(),
            x.len() == y.len(),
            x@ == encode_utf8(a@),
            y@ == encode_utf8(b@),
            (encode_utf8(a@) == encode_utf8(b@)) <==> (a@ == b@),
            x@.take(i as int) == y@.take(i as int),
        decreases x.len() - i,
    {
        if x[i] != y[i] {
            assert(x@[i as int] != y@[i as int]);
            return false;
        }
        assert(x@.take(i + 1) == x@.take(i as int).push(x@[i as int]));
        assert(y@.take(i + 1) == y@.take(i as int).push(y@[i as int]));
        i += 1;
    }
    assert(x@ == x@.take(x.len() as int));
    assert(y@ == y@.take(y.len() as int));
    true
}

/// `part` occurs somewhere in `text`.
pub open spec fn occurs_in(part: Seq<char>, text: Seq<char>) -> bool {
    exists|at: int| 0 <= at && at + part.len() <= text.len() && #[trigger] text.subrange(at, at + part.len()) == part
}

/// Whether `part` occurs somewhere in `text`.
pub fn occurs(part: &Vec<char>, text: &Vec<char>) -> (r: bool)
    ensures
        r == occurs_in(part@, text@),
{
    if part.len() > text.len() {
        return false;
    }
    let last = text.len() - part.len();
    let mut at: usize = 0;
    loop
        invariant
            part.len() <= text.len(),
            last == text.len() - part.len(),
            at <= last,
            forall|j: int| 0 <= j < at ==> #[trigger] text@.subrange(j, j + part.len()) != part@,
        decreases last - at,
    {
        let mut k: usize = 0;
        let mut same = true;
        while k < part.len() && same
            invariant
                k <= part.len(),
                at + part.len() <= text.len(),
                same ==> forall|j: int| 0 <= j < k ==> text@[at + j] == part@[j],
                !same ==> text@.subrange(at as int, at + part.len()) != part@,
            decreases part.len() - k + if same { 1nat } else { 0nat },
        {
            if text[at + k] != part[k] {
                assert(text@.subrange(at as int, at + part.len())[k as int] != part@[k as int]);
                same = false;
            } else {
                k += 1;
            }
        }
        if same {
            assert(text@.subrange(at as int, at + part.len()) =~= part@);
            return true;
        }
        if at == last {
            return false;
        }
        at += 1;
    }
}

/// Whether `text` is one of `list`.
pub fn holds_text(list: &Vec<String>, text: &str) -> (r: bool)
    ensures
        r == texts(list@).contains(text@),
{
    let mut i: usize = 0;
    while i < list.len()
        invariant
            i <= list.len(),
            forall|j: int| 0 <= j < i ==> texts(list@)[j] != text@,
        decreases list.len() - i,
    {
        if str_eq(list[i].as_str(), text) {
            assert(texts(list@)[i as int] == text@);
            return true;
        }
        i += 1;
    }
    false
}

/// The character that writes the digit `d`.
pub open spec fn digit_char(d: nat) -> char {
    if d == 0 {
        '0'
    } else if d == 1 {
        '1'
    } else if d == 2 {
        '2'
    } else if d == 3 {
        '3'
    } else if d == 4 {
        '4'
    } else if d == 5 {
        '5'
    } else if d == 6 {
        '6'
    } else if d == 7 {
        '7'
    } else if d == 8 {
        '8'
    } else {
        '9'
    }
}

/// `n` written in decimal, without leading zeros.
pub open spec fn decimal(n: nat) -> Seq<char>
    decreases n,
{
    if n < 10 {
        seq![digit_char(n)]
    } else {
        decimal(n / 10).push(digit_char(n % 10))
    }
}

pub(crate) fn digit_of(d: usize) -> (c: char)
    requires
        d < 10,
    ensures
        c == digit_char(d as nat),
{
    if d == 0 {
        '0'
    } else if d == 1 {
        '1'
    } else if d == 2 {
        '2'
    } else if d == 3 {
        '3'
    } else if d == 4 {
        '4'
    } else if d == 5 {
        '5'
    } else if d == 6 {
        '6'
    } else if d == 7 {
        '7'
    } else if d == 8 {
        '8'
    } else {
        '9'
    }
}

/// Appends `n` in decimal to `out`.
pub fn push_decimal(out: &mut String, n: usize)
    ensures
        final(out)@ == old(out)@ + decimal(n as nat),
    decreases n,
{
    if n < 10 {
        push_char(out, digit_of(n));
        assert(out@ =~= old(out)@ + decimal(n as nat));
    } else {
        push_decimal(out, n / 10);
        push_char(out, digit_of(n % 10));
        assert(out@ =~= old(out)@ + decimal(n as nat));
    }
}

} // verus!
