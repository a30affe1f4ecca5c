use crate::error::ParseError;
use crate::literal::{is_float_literal, is_literal};
use crate::seqs::{lemma_flatten_at_least, lemma_flatten_uniform};
use crate::text::{lemma_split_nonempty, split, split_on, split_words, texts, to_chars, words};
use vstd::prelude::*;

verus! {

/// What one block says: its time, the edges of its wavelength bins (low and
/// high of the first row, then of the second, and so on) and its flux values
/// (all of the first row, then all of the second, and so on), each as the
/// literal that spells it.
pub struct BlockView {
    pub time: Seq<char>,
    pub la: Seq<Seq<char>>,
    pub fla: Seq<Seq<char>>,
}

/// One parsed block.
#[derive(Clone, Debug)]
pub struct Block {
    pub time: Vec<char>,
    pub la: Vec<Vec<char>>,
    pub fla: Vec<Vec<char>>,
}

impl View for Block {
    type V = BlockView;

    open spec fn view(&self) -> BlockView {
        BlockView { time: self.time@, la: texts(self.la@), fla: texts(self.fla@) }
    }
}

/// The lines of a block: its header, then its rows.
pub open spec fn lines(block: Seq<char>) -> Seq<Seq<char>> {
    split(block, seq!['\n'])
}

/// The rows of a block: every line after the header.
pub open spec fn rows(block: Seq<char>) -> Seq<Seq<char>> {
    lines(block).skip(1)
}

/// Whether every text of `v` spells a number.
pub open spec fn all_literal(v: Seq<Seq<char>>) -> bool {
    forall|k: int| 0 <= k < v.len() ==> is_literal(#[trigger] v[k])
}

/// A header is well formed where it has a last word and that word is a
/// number.
pub open spec fn header_ok(line: Seq<char>) -> bool {
    words(line).len() > 0 && is_literal(words(line).last())
}

/// A row is well formed where it has at least three words and all of them
/// are numbers.
pub open spec fn row_ok(line: Seq<char>) -> bool {
    words(line).len() >= 3 && all_literal(words(line))
}

/// A block is well formed where its header and every row are.
pub open spec fn block_ok(block: Seq<char>) -> bool {
    &&& header_ok(lines(block)[0])
    &&& forall|i: int| 0 <= i < rows(block).len() ==> row_ok(#[trigger] rows(block)[i])
}

/// The two bin edges of a row.
pub open spec fn row_bins(line: Seq<char>) -> Seq<Seq<char>> {
    words(line).take(2)
}

/// The flux values of a row.
pub open spec fn row_flux(line: Seq<char>) -> Seq<Seq<char>> {
    words(line).skip(2)
}

/// What a well-formed block says.
pub open spec fn block_view(block: Seq<char>) -> BlockView {
    BlockView {
        time: words(lines(block)[0]).last(),
        la: rows(block).map_values(|l: Seq<char>| row_bins(l)).flatten(),
        fla: rows(block).map_values(|l: Seq<char>| row_flux(l)).flatten(),
    }
}

/// Sequences of numbers flatten to a sequence of numbers.
pub proof fn lemma_flatten_all_literal(ss: Seq<Seq<Seq<char>>>)
    requires
        forall|i: int| 0 <= i < ss.len() ==> all_literal(#[trigger] ss[i]),
    ensures
        all_literal(ss.flatten()),
    decreases ss.len(),
{
    if ss.len() > 0 {
        let init = ss.drop_last();
        lemma_flatten_all_literal(init);
        init.lemma_flatten_push(ss.last());
        assert(init.push(ss.last()) =~= ss);
        assert(all_literal(ss.last()));
        assert forall|k: int| 0 <= k < ss.flatten().len() implies is_literal(
            #[trigger] ss.flatten()[k],
        ) by {
            if k < init.flatten().len() {
                assert(ss.flatten()[k] == init.flatten()[k]);
            } else {
                assert(ss.flatten()[k] == ss.last()[k - init.flatten().len()]);
            }
        }
    }
}

/// In a well-formed block every field is a number, every row brings two bin
/// edges and at least one flux value.
pub proof fn lemma_block_shape(block: Seq<char>)
    requires
        block_ok(block),
    ensures
        is_literal(block_view(block).time),
        all_literal(block_view(block).la),
        all_literal(block_view(block).fla),
        block_view(block).la.len() == 2 * rows(block).len(),
        block_view(block).fla.len() >= rows(block).len(),
{
    let rs = rows(block);
    let bins = rs.map_values(|l: Seq<char>| row_bins(l));
    let fluxes = rs.map_values(|l: Seq<char>| row_flux(l));
    assert forall|i: int| 0 <= i < rs.len() implies (#[trigger] bins[i]).len() == 2 && all_literal(
        bins[i],
    ) && (#[trigger] fluxes[i]).len() >= 1 && all_literal(fluxes[i]) by {
        let w = words(rs[i]);
        assert(row_ok(rs[i]));
        assert forall|k: int| 0 <= k < bins[i].len() implies is_literal(#[trigger] bins[i][k]) by {
            assert(bins[i][k] == w[k]);
        }
        assert forall|k: int| 0 <= k < fluxes[i].len() implies is_literal(
            #[trigger] fluxes[i][k],
        ) by {
            assert(fluxes[i][k] == w[k + 2]);
        }
    }
    lemma_flatten_uniform(bins, 2);
    lemma_flatten_at_least(fluxes, 1);
    lemma_flatten_all_literal(bins);
    lemma_flatten_all_literal(fluxes);
}

/// Whether every text of `v` spells a number.
pub fn all_float_literals(v: &Vec<Vec<char>>) -> (r: bool)
    ensures
        r == all_literal(texts(v@)),
{
    let mut k: usize = 0;
    while k < v.len()
        invariant
            k <= v.len(),
            forall|j: int| 0 <= j < k ==> is_literal(#[trigger] texts(v@)[j]),
        decreases v.len() - k,
    {
        assert(texts(v@)[k as int] == v@[k as int]@);
        if !is_float_literal(v[k].as_slice()) {
            return false;
        }
        k += 1;
    }
    true
}

/// Parses one block given as characters.
pub fn parse_block_chars(block: &[char]) -> (r: Result<Block, ParseError>)
    ensures
        match r {
            Ok(b) => block_ok(block@) && b@ == block_view(block@),
            Err(e) => e == ParseError::Format && !block_ok(block@),
        },
{
    let nl: [char; 1] = ['\n'];
    assert(nl@ =~= seq!['\n']);
    let ls = split_on(block, nl.as_slice());
    proof {
        lemma_split_nonempty(block@, seq!['\n']);
    }
    let ghost lv = lines(block@);
    let ghost rv = rows(block@);
    assert(texts(ls@) == lv);
    assert(lv[0] == ls@[0]@);
    let mut header = split_words(ls[0].as_slice());
    let time = match header.pop() {
        Some(t) => t,
        None => {
            return Err(ParseError::Format);
        },
    };
    assert(time@ == words(lv[0]).last());
    if !is_float_literal(time.as_slice()) {
        return Err(ParseError::Format);
    }
    let mut la: Vec<Vec<char>> = Vec::new();
    let mut fla: Vec<Vec<char>> = Vec::new();
    let mut i: usize = 1;
    proof {
        assert(rv.take(0) =~= Seq::<Seq<char>>::empty());
        assert(texts(la@) =~= Seq::<Seq<char>>::empty());
    }
    while i < ls.len()
        invariant
            1 <= i <= ls.len(),
            lv == lines(block@),
            rv == rows(block@),
            texts(ls@) == lv,
            forall|r: int| 0 <= r < i - 1 ==> row_ok(#[trigger] rv[r]),
            texts(la@) == rv.take(i - 1).map_values(|l: Seq<char>| row_bins(l)).flatten(),
            texts(fla@) == rv.take(i - 1).map_values(|l: Seq<char>| row_flux(l)).flatten(),
        decreases ls.len() - i,
    {
        let ghost line = rv[i - 1];
        assert(line == ls@[i as int]@);
        let mut w = split_words(ls[i].as_slice());
        if w.len() < 3 {
            return Err(ParseError::Format);
        }
        if !all_float_literals(&w) {
            assert(!row_ok(rv[i - 1]));
            return Err(ParseError::Format);
        }
        let mut flux = w.split_off(2);
        proof {
            let bins = rv.take(i - 1).map_values(|l: Seq<char>| row_bins(l));
            let fluxes = rv.take(i - 1).map_values(|l: Seq<char>| row_flux(l));
            assert(rv.take(i as int).map_values(|l: Seq<char>| row_bins(l)) =~= bins.push(
                row_bins(line),
            ));
            assert(rv.take(i as int).map_values(|l: Seq<char>| row_flux(l)) =~= fluxes.push(
                row_flux(line),
            ));
            bins.lemma_flatten_push(row_bins(line));
            fluxes.lemma_flatten_push(row_flux(line));
            assert(texts(w@) =~= row_bins(line));
            assert(texts(flux@) =~= row_flux(line));
            assert(texts(la@ + w@) =~= texts(la@) + texts(w@));
            assert(texts(fla@ + flux@) =~= texts(fla@) + texts(flux@));
        }
        la.append(&mut w);
        fla.append(&mut flux);
        i += 1;
    }
    assert(rv.take(i - 1) =~= rv);
    Ok(Block { time, la, fla })
}

/// Parses one block: a header line whose last word is the block's time, then
/// one row per wavelength bin, each made of the bin's two edges and its flux
/// values.
pub fn parse_block(block: &str) -> (r: Result<Block, ParseError>)
    ensures
        match r {
            Ok(b) => block_ok(block@) && b@ == block_view(block@),
            Err(e) => e == ParseError::Format && !block_ok(block@),
        },
{
    let chars = to_chars(block);
    parse_block_chars(chars.as_slice())
}

} // verus!
