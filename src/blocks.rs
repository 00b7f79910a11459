//! Duration strings built from blocks, and the law that such a string
//! parses to exactly the values its blocks carry.
use vstd::prelude::*;

use crate::parse::{
    assemble_state, assemble_step, digit_value, is_digit, is_space, parse_spec, scan, scan_state,
    seconds_of, trim, trim_end, trim_start, unit_of, Assembly, Lexeme, ParseFailure, ScanState,
    TimeUnit,
};
use crate::timer::MAX_SECONDS;

verus! {

/// One block of a duration string: a run of digits and a unit letter.
pub struct Block {
    pub digits: Seq<char>,
    pub letter: char,
}

/// The value of a run of decimal digits, however long.
pub open spec fn decimal_value(ds: Seq<char>) -> nat
    decreases ds.len(),
{
    if ds.len() == 0 {
        0
    } else {
        decimal_value(ds.drop_last()) * 10 + digit_value(ds.last())
    }
}

/// A non-empty run of ASCII digits followed by one of `hHmMsS`.
pub open spec fn block_well_formed(b: Block) -> bool {
    &&& b.digits.len() > 0
    &&& forall|k: int| 0 <= k < b.digits.len() ==> is_digit(#[trigger] b.digits[k])
    &&& unit_of(b.letter) is Some
}

/// No two blocks name the same unit.
pub open spec fn units_distinct(bs: Seq<Block>) -> bool {
    forall|i: int, j: int|
        0 <= i < j < bs.len() ==> unit_of(#[trigger] bs[i].letter) != unit_of(#[trigger] bs[j].letter)
}

/// The blocks written one after another, with no separators.
pub open spec fn render(bs: Seq<Block>) -> Seq<char>
    decreases bs.len(),
{
    if bs.len() == 0 {
        seq![]
    } else {
        render(bs.drop_last()) + bs.last().digits.push(bs.last().letter)
    }
}

/// The value that the last block of unit `u` carries, or zero if none does.
pub open spec fn block_field(bs: Seq<Block>, u: TimeUnit) -> nat
    decreases bs.len(),
{
    if bs.len() == 0 {
        0
    } else if unit_of(bs.last().letter) == Some(u) {
        decimal_value(bs.last().digits)
    } else {
        block_field(bs.drop_last(), u)
    }
}

/// The tokens of the blocks: a number and a unit for each.
pub open spec fn block_lexemes(bs: Seq<Block>) -> Seq<Lexeme>
    decreases bs.len(),
{
    if bs.len() == 0 {
        seq![]
    } else {
        block_lexemes(bs.drop_last()).push(Lexeme::Number(decimal_value(bs.last().digits))).push(
            Lexeme::Unit(unit_of(bs.last().letter)->0),
        )
    }
}

proof fn lemma_scan_digits(t: Seq<char>, ds: Seq<char>)
    requires
        scan_state(t).stray is None,
        scan_state(t).pending is None,
        ds.len() > 0,
        forall|k: int| 0 <= k < ds.len() ==> is_digit(#[trigger] ds[k]),
    ensures
        scan_state(t + ds) == (ScanState {
            lexemes: scan_state(t).lexemes,
            pending: Some(decimal_value(ds)),
            stray: None,
        }),
    decreases ds.len(),
{
    assert((t + ds).drop_last() =~= t + ds.drop_last());
    assert((t + ds).last() == ds.last());
    if ds.len() == 1 {
        assert(t + ds.drop_last() =~= t);
        assert(decimal_value(ds.drop_last()) == 0);
    } else {
        lemma_scan_digits(t, ds.drop_last());
    }
}

proof fn lemma_scan_blocks(bs: Seq<Block>)
    requires
        forall|i: int| 0 <= i < bs.len() ==> block_well_formed(#[trigger] bs[i]),
    ensures
        scan_state(render(bs)) == (ScanState {
            lexemes: block_lexemes(bs),
            pending: None,
            stray: None,
        }),
        forall|k: int| 0 <= k < render(bs).len() ==> !is_space(#[trigger] render(bs)[k]),
    decreases bs.len(),
{
    if bs.len() > 0 {
        let prev = bs.drop_last();
        let b = bs.last();
        assert(block_well_formed(bs[bs.len() - 1]));
        lemma_scan_blocks(prev);
        lemma_scan_digits(render(prev), b.digits);
        let with_digits = render(prev) + b.digits;
        assert(render(bs) =~= with_digits.push(b.letter));
        assert(render(bs).drop_last() =~= with_digits);
        assert forall|k: int| 0 <= k < render(bs).len() implies !is_space(#[trigger] render(bs)[k]) by {
            if k < render(prev).len() {
                assert(render(bs)[k] == render(prev)[k]);
            } else if k < with_digits.len() {
                assert(render(bs)[k] == b.digits[k - render(prev).len()]);
            } else {
                assert(render(bs)[k] == b.letter);
            }
        }
    }
}

proof fn lemma_field_absent(bs: Seq<Block>, u: TimeUnit)
    requires
        forall|i: int| 0 <= i < bs.len() ==> unit_of(#[trigger] bs[i].letter) != Some(u),
    ensures
        block_field(bs, u) == 0,
    decreases bs.len(),
{
    if bs.len() > 0 {
        assert(unit_of(bs[bs.len() - 1].letter) != Some(u));
        lemma_field_absent(bs.drop_last(), u);
    }
}

proof fn lemma_assemble_blocks(bs: Seq<Block>)
    requires
        forall|i: int| 0 <= i < bs.len() ==> block_well_formed(#[trigger] bs[i]),
        units_distinct(bs),
    ensures
        assemble_state(block_lexemes(bs)) == (Assembly {
            hours: block_field(bs, TimeUnit::Hour),
            minutes: block_field(bs, TimeUnit::Minute),
            seconds: block_field(bs, TimeUnit::Second),
            pending: None,
            failure: None,
        }),
    decreases bs.len(),
{
    if bs.len() > 0 {
        let prev = bs.drop_last();
        let b = bs.last();
        let u = unit_of(b.letter)->0;
        assert(block_well_formed(bs[bs.len() - 1]));
        assert forall|i: int, j: int| 0 <= i < j < prev.len() implies unit_of(
            #[trigger] prev[i].letter,
        ) != unit_of(#[trigger] prev[j].letter) by {
            assert(prev[i] == bs[i] && prev[j] == bs[j]);
        }
        lemma_assemble_blocks(prev);
        assert forall|i: int| 0 <= i < prev.len() implies unit_of(#[trigger] prev[i].letter) != Some(
            u,
        ) by {
            assert(prev[i] == bs[i]);
            assert(unit_of(bs[i].letter) != unit_of(bs[bs.len() - 1].letter));
        }
        lemma_field_absent(prev, u);
        let with_number = block_lexemes(prev).push(Lexeme::Number(decimal_value(b.digits)));
        assert(block_lexemes(bs).drop_last() =~= with_number);
        assert(with_number.drop_last() =~= block_lexemes(prev));
        let mid = assemble_state(with_number);
        assert(mid == Assembly { pending: Some(decimal_value(b.digits)), ..assemble_state(block_lexemes(prev)) });
        assert(assemble_state(block_lexemes(bs)) == assemble_step(mid, Lexeme::Unit(u)));
        assert(block_field(bs, u) == decimal_value(b.digits));
    }
}

/// A string made of well-formed blocks, no two of the same unit, whose
/// values add up to between one second and one day, parses to exactly the
/// values of its blocks, in whatever order the units come.
pub proof fn lemma_blocks_parse(bs: Seq<Block>)
    requires
        forall|i: int| 0 <= i < bs.len() ==> block_well_formed(#[trigger] bs[i]),
        units_distinct(bs),
        0 < seconds_of(
            block_field(bs, TimeUnit::Hour),
            block_field(bs, TimeUnit::Minute),
            block_field(bs, TimeUnit::Second),
        ) <= MAX_SECONDS,
    ensures
        parse_spec(render(bs)) == Ok::<(nat, nat, nat), ParseFailure>(
            (
                block_field(bs, TimeUnit::Hour),
                block_field(bs, TimeUnit::Minute),
                block_field(bs, TimeUnit::Second),
            ),
        ),
{
    let s = render(bs);
    lemma_scan_blocks(bs);
    lemma_assemble_blocks(bs);
    if s.len() > 0 {
        assert(!is_space(s[0]));
        assert(!is_space(s.last()));
    }
    assert(trim_start(s) == s);
    assert(trim_end(s) == s);
    assert(trim(s) == s);
    assert(scan(s) == Ok::<Seq<Lexeme>, char>(block_lexemes(bs)));
}

} // verus!
