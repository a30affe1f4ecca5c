use crate::arrays::{
    arrays_view, block_sep, blocks, blocks_ok, fluxes, lemma_shape, nla, nth, outcome_view,
    parse_outcome, shape_ok, Arrays, ArraysView,
};
use crate::block::{block_ok, block_view, lemma_block_shape, row_bins, row_flux, row_ok, rows};
use crate::error::ParseError;
use crate::meta::{meta_outcome, Metadata};
use crate::seqs::{lemma_flatten_index, lemma_flatten_uniform};
use crate::spectrum::{spec_outcome, SpecLANL};
use crate::text::{lemma_split_nonempty, trim, words};
use vstd::prelude::*;

verus! {

/// Whether a block has `n` rows of `m` flux values each.
pub open spec fn block_uniform(block: Seq<char>, n: nat, m: nat) -> bool {
    &&& rows(block).len() == n
    &&& forall|j: int| 0 <= j < n ==> (#[trigger] words(rows(block)[j])).len() == m + 2
}

/// Whether every block of a file has `n` rows of `m` flux values each.
pub open spec fn uniform(text: Seq<char>, n: nat, m: nat) -> bool {
    forall|i: int| 0 <= i < blocks(text).len() ==> block_uniform(#[trigger] blocks(text)[i], n, m)
}

/// A well-formed block of `n` rows of `m` flux values brings `2 * n` bin
/// edges and `n * m` flux values.
pub proof fn lemma_block_uniform(block: Seq<char>, n: nat, m: nat)
    requires
        block_ok(block),
        block_uniform(block, n, m),
    ensures
        block_view(block).la.len() == 2 * n,
        block_view(block).fla.len() == n * m,
        n > 0 ==> m > 0,
{
    let rs = rows(block);
    let fl = rs.map_values(|l: Seq<char>| row_flux(l));
    assert forall|j: int| 0 <= j < fl.len() implies (#[trigger] fl[j]).len() == m by {
        assert(words(rs[j]).len() == m + 2);
    }
    lemma_flatten_uniform(fl, m);
    lemma_block_shape(block);
    if n > 0 {
        assert(row_ok(rs[0]));
        assert(words(rs[0]).len() == m + 2);
    }
}

/// A file of `T` well-formed blocks, each with `n` rows of `m` flux values,
/// parses to a cube of shape `(T, n, m)`.
pub proof fn lemma_uniform_shape(text: Seq<char>, n: nat, m: nat)
    requires
        blocks_ok(text),
        uniform(text, n, m),
        n > 0,
    ensures
        parse_outcome(text) == Ok::<_, ParseError>(arrays_view(text)),
        arrays_view(text).nt == blocks(text).len(),
        arrays_view(text).nla == n,
        arrays_view(text).nth == m,
        arrays_view(text).t.len() == blocks(text).len(),
        arrays_view(text).la.len() == 2 * n,
        arrays_view(text).fla.len() == blocks(text).len() * n * m,
{
    let bs = blocks(text);
    lemma_split_nonempty(trim(text), block_sep());
    assert forall|i: int| 0 <= i < bs.len() implies (#[trigger] fluxes(text)[i]).len() == n * m by {
        assert(block_ok(bs[i]));
        assert(block_uniform(bs[i], n, m));
        lemma_block_uniform(bs[i], n, m);
    }
    assert(block_ok(bs.last()));
    assert(block_uniform(bs.last(), n, m));
    lemma_block_uniform(bs.last(), n, m);
    assert(nla(text) == n);
    assert((n * m) % n == 0 && (n * m) / n == m) by (nonlinear_arith)
        requires
            n > 0,
    ;
    lemma_shape(text);
}

/// A file of well-formed blocks in which two blocks bring different numbers
/// of flux values has a shape error.
pub proof fn lemma_ragged_blocks(text: Seq<char>, i: int, j: int)
    requires
        blocks_ok(text),
        0 <= i < blocks(text).len(),
        0 <= j < blocks(text).len(),
        block_view(blocks(text)[i]).fla.len() != block_view(blocks(text)[j]).fla.len(),
    ensures
        parse_outcome(text) == Err::<ArraysView, _>(ParseError::Shape),
{
    if shape_ok(text) {
        assert(fluxes(text)[i].len() == nla(text) * nth(text));
        assert(fluxes(text)[j].len() == nla(text) * nth(text));
    }
}

/// With `n` rows of `m` flux values in every block, the flux of block `it`,
/// row `ila`, column `ith` is entry `(it * n + ila) * m + ith` of the cube,
/// and the two edges of bin `ila` are entries `2 * ila` and `2 * ila + 1` of
/// the bin table, read from the last block.
pub proof fn lemma_row_major(text: Seq<char>, n: nat, m: nat, it: int, ila: int, ith: int)
    requires
        blocks_ok(text),
        uniform(text, n, m),
        0 <= it < blocks(text).len(),
        0 <= ila < n,
        0 <= ith < m,
    ensures
        0 <= (it * n + ila) * m + ith < arrays_view(text).fla.len(),
        arrays_view(text).fla[(it * n + ila) * m + ith] == words(
            rows(blocks(text)[it])[ila],
        )[ith + 2],
        arrays_view(text).la.len() == 2 * n,
        arrays_view(text).la[2 * ila] == words(rows(blocks(text).last())[ila])[0],
        arrays_view(text).la[2 * ila + 1] == words(rows(blocks(text).last())[ila])[1],
{
    let bs = blocks(text);
    let fs = fluxes(text);
    assert forall|i: int| 0 <= i < fs.len() implies (#[trigger] fs[i]).len() == n * m by {
        assert(block_ok(bs[i]));
        assert(block_uniform(bs[i], n, m));
        lemma_block_uniform(bs[i], n, m);
    }
    let r = ila * m + ith;
    assert(0 <= r < n * m) by (nonlinear_arith)
        requires
            0 <= ila < n,
            0 <= ith < m,
            r == ila * m + ith,
    ;
    lemma_flatten_index(fs, n * m, it, r);
    assert(it * (n * m) + r == (it * n + ila) * m + ith) by (nonlinear_arith)
        requires
            r == ila * m + ith,
    ;
    let rs = rows(bs[it]);
    let fl = rs.map_values(|l: Seq<char>| row_flux(l));
    assert(block_uniform(bs[it], n, m));
    assert forall|j: int| 0 <= j < fl.len() implies (#[trigger] fl[j]).len() == m by {
        assert(words(rs[j]).len() == m + 2);
    }
    lemma_flatten_index(fl, m, ila, ith);
    assert(fl[ila][ith] == words(rs[ila])[ith + 2]);

    let last = bs.last();
    let lr = rows(last);
    let bl = lr.map_values(|l: Seq<char>| row_bins(l));
    assert(block_ok(last));
    assert(block_uniform(last, n, m));
    assert forall|j: int| 0 <= j < bl.len() implies (#[trigger] bl[j]).len() == 2 by {
        assert(words(lr[j]).len() == m + 2);
    }
    lemma_flatten_uniform(bl, 2);
    lemma_flatten_index(bl, 2, ila, 0);
    lemma_flatten_index(bl, 2, ila, 1);
    assert(bl[ila][0] == words(lr[ila])[0]);
    assert(bl[ila][1] == words(lr[ila])[1]);
}

/// Parsing is a function of the text: two results for one text say the same.
pub proof fn lemma_parse_arrays_twice(
    text: Seq<char>,
    first: Result<Arrays, ParseError>,
    second: Result<Arrays, ParseError>,
)
    requires
        outcome_view(first) == parse_outcome(text),
        outcome_view(second) == parse_outcome(text),
    ensures
        outcome_view(first) == outcome_view(second),
        first is Ok ==> second is Ok && first->Ok_0@ == second->Ok_0@,
        first is Err ==> second is Err && first->Err_0 == second->Err_0,
{
}

/// Reading a file name is a function of the name: two results for one name
/// say the same.
pub proof fn lemma_parse_filename_twice(path: Seq<char>, first: Metadata, second: Metadata)
    requires
        meta_outcome(path) == Ok::<_, ParseError>(first@),
        meta_outcome(path) == Ok::<_, ParseError>(second@),
    ensures
        first@ == second@,
{
}

/// Converting a file is a function of its name and its text: two spectra for
/// one file say the same.
pub proof fn lemma_convert_twice(path: Seq<char>, text: Seq<char>, first: SpecLANL, second: SpecLANL)
    requires
        spec_outcome(path, text) == Ok::<_, ParseError>(first@),
        spec_outcome(path, text) == Ok::<_, ParseError>(second@),
    ensures
        first@ == second@,
        first.meta@ == second.meta@,
        first.arrays@ == second.arrays@,
{
}

} // verus!
