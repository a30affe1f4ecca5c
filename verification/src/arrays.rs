use crate::block::{
    all_literal, block_ok, block_view, lemma_block_shape, lemma_flatten_all_literal,
    parse_block_chars, rows, Block,
};
use crate::error::ParseError;
use crate::literal::is_literal;
use crate::seqs::lemma_flatten_uniform;
use crate::text::{lemma_split_nonempty, split, split_on, texts, to_chars, trim, trim_span};
use vstd::prelude::*;

verus! {

/// What a spectrum file says, as mathematical sequences.
///
/// `fla` is the flux cube of shape `(nt, nla, nth)`, laid out with the time
/// index outermost and the angle index innermost; `la` is the bin table of
/// shape `(nla, 2)`; `th` names the two edges of each angle bin.
pub struct ArraysView {
    pub t: Seq<Seq<char>>,
    pub la: Seq<Seq<char>>,
    pub th: Seq<(usize, usize)>,
    pub fla: Seq<Seq<char>>,
    pub nt: nat,
    pub nla: nat,
    pub nth: nat,
}

/// The arrays of one spectrum file.
#[derive(Clone, Debug)]
pub struct Arrays {
    /// Time of each block, in the order of the blocks in the file.
    pub t: Vec<Vec<char>>,
    /// Low and high edge of each wavelength bin.
    pub la: Vec<Vec<char>>,
    /// The two edges of each angle bin, by their index among the `nth + 1`
    /// edges that cut the cosine range into equal parts.
    pub th: Vec<(usize, usize)>,
    /// Flux by time, wavelength bin and angle bin.
    pub fla: Vec<Vec<char>>,
    /// Number of times.
    pub nt: usize,
    /// Number of wavelength bins.
    pub nla: usize,
    /// Number of angle bins.
    pub nth: usize,
}

impl Arrays {
    /// The arrays fit together: the lengths are those of the shape, every
    /// dimension has at least one entry, and every field is a number.
    pub open spec fn wf(&self) -> bool {
        &&& self.nt > 0 && self.nla > 0 && self.nth > 0
        &&& self.t@.len() == self.nt
        &&& self.la@.len() == 2 * self.nla
        &&& self.th@ == edge_pairs(self.nth as nat)
        &&& self.fla@.len() == self.nt * self.nla * self.nth
        &&& all_literal(texts(self.t@))
        &&& all_literal(texts(self.la@))
        &&& all_literal(texts(self.fla@))
    }
}

impl Arrays {
    /// Position in `fla` of the flux at time `it`, wavelength bin `ila` and
    /// angle bin `ith`: the time index is outermost, the angle index
    /// innermost.
    pub open spec fn flux_index(&self, it: int, ila: int, ith: int) -> int {
        (it * self.nla + ila) * self.nth + ith
    }

    /// The flux at time `it`, wavelength bin `ila` and angle bin `ith`.
    pub fn flux(&self, it: usize, ila: usize, ith: usize) -> (r: &Vec<char>)
        requires
            self.wf(),
            it < self.nt,
            ila < self.nla,
            ith < self.nth,
        ensures
            0 <= self.flux_index(it as int, ila as int, ith as int) < self.fla@.len(),
            r@ == self@.fla[self.flux_index(it as int, ila as int, ith as int)],
    {
        let total = self.fla.len();
        proof {
            let (t, n, m) = (self.nt as int, self.nla as int, self.nth as int);
            let (a, b, c) = (it as int, ila as int, ith as int);
            assert(0 <= a * n + b <= t * n - 1) by (nonlinear_arith)
                requires
                    0 <= a < t,
                    0 <= b < n,
            ;
            assert(0 <= a * n && a * n <= a * n + b);
            assert(0 <= (a * n + b) * m + c <= t * n * m - 1) by (nonlinear_arith)
                requires
                    0 <= a * n + b <= t * n - 1,
                    0 <= c < m,
            ;
            assert(t * n <= t * n * m) by (nonlinear_arith)
                requires
                    t * n >= 0,
                    m >= 1,
            ;
            assert(0 <= a * n) by (nonlinear_arith)
                requires
                    0 <= a,
                    0 <= n,
            ;
            assert(0 <= (a * n + b) * m) by (nonlinear_arith)
                requires
                    0 <= a * n + b,
                    0 <= m,
            ;
            assert(t * n * m == total);
        }
        &self.fla[(it * self.nla + ila) * self.nth + ith]
    }

    /// The low and the high edge of wavelength bin `ila`.
    pub fn bin(&self, ila: usize) -> (r: (&Vec<char>, &Vec<char>))
        requires
            self.wf(),
            ila < self.nla,
        ensures
            r.0@ == self@.la[2 * ila],
            r.1@ == self@.la[2 * ila + 1],
    {
        let edges = self.la.len();
        assert(2 * ila + 1 < edges);
        (&self.la[2 * ila], &self.la[2 * ila + 1])
    }
}

impl View for Arrays {
    type V = ArraysView;

    open spec fn view(&self) -> ArraysView {
        ArraysView {
            t: texts(self.t@),
            la: texts(self.la@),
            th: self.th@,
            fla: texts(self.fla@),
            nt: self.nt as nat,
            nla: self.nla as nat,
            nth: self.nth as nat,
        }
    }
}

/// The separator of two blocks: two blank lines.
pub open spec fn block_sep() -> Seq<char> {
    seq!['\n', '\n', '\n']
}

/// The blocks of a file, in the order in which the file holds them.
pub open spec fn blocks(text: Seq<char>) -> Seq<Seq<char>> {
    split(trim(text), block_sep())
}

/// Whether every block of the file is well formed.
pub open spec fn blocks_ok(text: Seq<char>) -> bool {
    forall|i: int| 0 <= i < blocks(text).len() ==> block_ok(#[trigger] blocks(text)[i])
}

/// The time of each block.
pub open spec fn times(text: Seq<char>) -> Seq<Seq<char>> {
    blocks(text).map_values(|b: Seq<char>| block_view(b).time)
}

/// The flux values of each block.
pub open spec fn fluxes(text: Seq<char>) -> Seq<Seq<Seq<char>>> {
    blocks(text).map_values(|b: Seq<char>| block_view(b).fla)
}

/// The bin table of the file: that of its last block.
pub open spec fn bins(text: Seq<char>) -> Seq<Seq<char>> {
    block_view(blocks(text).last()).la
}

/// Number of times: one per block.
pub open spec fn nt(text: Seq<char>) -> nat {
    blocks(text).len()
}

/// Number of wavelength bins.
pub open spec fn nla(text: Seq<char>) -> nat {
    bins(text).len() / 2
}

/// Number of angle bins: what is left of the flux count once times and
/// wavelength bins are accounted for.
pub open spec fn nth(text: Seq<char>) -> nat {
    (fluxes(text).flatten().len() as int / (nt(text) * nla(text)) as int) as nat
}

/// Whether the flux values fill a cube: the count divides evenly by the
/// number of times and wavelength bins, and every block brings one slice of
/// `nla * nth` values.
pub open spec fn shape_ok(text: Seq<char>) -> bool {
    &&& nt(text) * nla(text) > 0
    &&& fluxes(text).flatten().len() % (nt(text) * nla(text)) == 0
    &&& forall|i: int|
        0 <= i < nt(text) ==> (#[trigger] fluxes(text)[i]).len() == nla(text) * nth(text)
}

/// The edge pairs of `m` angle bins: bin `i` lies between edge `i` and edge
/// `i + 1`. Edge `k` of `m` bins has the cosine `1 - 2k/m`, so the bins cut
/// the sphere into slices of equal solid angle.
pub open spec fn edge_pairs(m: nat) -> Seq<(usize, usize)> {
    Seq::new(m, |i: int| (i as usize, (i + 1) as usize))
}

/// What a file of well-formed blocks and of good shape says.
pub open spec fn arrays_view(text: Seq<char>) -> ArraysView {
    ArraysView {
        t: times(text),
        la: bins(text),
        th: edge_pairs(nth(text)),
        fla: fluxes(text).flatten(),
        nt: nt(text),
        nla: nla(text),
        nth: nth(text),
    }
}

/// The outcome of parsing a file: a malformed block is reported before a bad
/// shape.
pub open spec fn parse_outcome(text: Seq<char>) -> Result<ArraysView, ParseError> {
    if !blocks_ok(text) {
        Err(ParseError::Format)
    } else if !shape_ok(text) {
        Err(ParseError::Shape)
    } else {
        Ok(arrays_view(text))
    }
}

/// The view of a parse result.
pub open spec fn outcome_view(r: Result<Arrays, ParseError>) -> Result<ArraysView, ParseError> {
    match r {
        Ok(a) => Ok(a@),
        Err(e) => Err(e),
    }
}

/// The edge pairs of `m` angle bins.
pub fn angle_bins(m: usize) -> (r: Vec<(usize, usize)>)
    ensures
        r@ == edge_pairs(m as nat),
{
    let mut out: Vec<(usize, usize)> = Vec::new();
    let mut i: usize = 0;
    while i < m
        invariant
            i <= m,
            out@.len() == i,
            forall|k: int| 0 <= k < i ==> out@[k] == (k as usize, (k + 1) as usize),
        decreases m - i,
    {
        out.push((i, i + 1));
        i += 1;
    }
    assert(out@ =~= edge_pairs(m as nat));
    out
}

/// A file of well-formed blocks has a good shape exactly where its last
/// block has rows, every block brings as many flux values as the first, and
/// that number is a multiple of the number of rows.
pub proof fn lemma_shape(text: Seq<char>)
    requires
        blocks_ok(text),
    ensures
        shape_ok(text) <==> {
            &&& nla(text) > 0
            &&& fluxes(text)[0].len() % nla(text) == 0
            &&& forall|j: int|
                0 <= j < nt(text) ==> (#[trigger] fluxes(text)[j]).len() == fluxes(text)[0].len()
        },
        shape_ok(text) ==> {
            &&& nth(text) == fluxes(text)[0].len() / nla(text)
            &&& nth(text) > 0
            &&& fluxes(text).flatten().len() == nt(text) * nla(text) * nth(text)
            &&& bins(text).len() == 2 * nla(text)
        },
{
    lemma_split_nonempty(trim(text), block_sep());
    let t = nt(text) as int;
    let n = nla(text) as int;
    let per = fluxes(text)[0].len() as int;
    let total = fluxes(text).flatten().len() as int;
    let last = blocks(text).last();
    assert(block_ok(last));
    lemma_block_shape(last);
    assert(n == rows(last).len());
    if n > 0 && per % n == 0 && (forall|j: int|
        0 <= j < nt(text) ==> (#[trigger] fluxes(text)[j]).len() == fluxes(text)[0].len()) {
        lemma_flatten_uniform(fluxes(text), per as nat);
        let q = per / n;
        assert(per == n * q) by (nonlinear_arith)
            requires
                n > 0,
                per % n == 0,
                q == per / n,
        ;
        assert(total == (t * n) * q) by (nonlinear_arith)
            requires
                total == t * per,
                per == n * q,
        ;
        assert(t * n > 0) by (nonlinear_arith)
            requires
                t >= 1,
                n > 0,
        ;
        assert(total % (t * n) == 0 && total / (t * n) == q) by (nonlinear_arith)
            requires
                total == (t * n) * q,
                t * n > 0,
        ;
        assert(fluxes(text)[t - 1] == block_view(last).fla);
        assert(q > 0) by (nonlinear_arith)
            requires
                per == n * q,
                per >= n,
                n > 0,
        ;
        assert(total == t * n * q);
        assert(shape_ok(text));
    }
    if shape_ok(text) {
        let m = nth(text) as int;
        assert(n > 0) by (nonlinear_arith)
            requires
                t * n > 0,
                t >= 0,
        ;
        assert(fluxes(text)[0].len() == n * m);
        assert(per % n == 0 && per / n == m) by (nonlinear_arith)
            requires
                per == n * m,
                n > 0,
        ;
    }
}

/// Parses the text of a spectrum file into its arrays.
///
/// The text is trimmed and cut into blocks at every run of two blank lines.
/// The blocks are parsed in order; each gives one time, and its flux values
/// follow those of the blocks before it. The bin table is that of the last
/// block. A malformed block is a format error; flux values that do not fill
/// a cube of shape (times, wavelength bins, angle bins) are a shape error.
pub fn parse_arrays(text: &str) -> (r: Result<Arrays, ParseError>)
    ensures
        outcome_view(r) == parse_outcome(text@),
        r matches Ok(a) ==> a.wf(),
        r matches Ok(a) ==> forall|i: int|
            0 <= i < a@.t.len() ==> a@.t[i] == block_view(#[trigger] blocks(text@)[i]).time,
{
    let chars = to_chars(text);
    let (lo, hi) = trim_span(chars.as_slice());
    let body = vstd::slice::slice_subrange(chars.as_slice(), lo, hi);
    let sep: [char; 3] = ['\n', '\n', '\n'];
    assert(sep@ =~= block_sep());
    let bs = split_on(body, sep.as_slice());
    let ghost bv = blocks(text@);
    proof {
        lemma_split_nonempty(trim(text@), block_sep());
    }
    let mut tv: Vec<Vec<char>> = Vec::new();
    let mut lav: Vec<Vec<char>> = Vec::new();
    let mut flav: Vec<Vec<char>> = Vec::new();
    let mut per: usize = 0;
    let mut uniform = true;
    let mut i: usize = 0;
    proof {
        assert(texts(tv@) =~= times(text@).take(0));
        assert(fluxes(text@).take(0) =~= Seq::<Seq<Seq<char>>>::empty());
        assert(texts(flav@) =~= fluxes(text@).take(0).flatten());
    }
    while i < bs.len()
        invariant
            i <= bs.len(),
            bv == blocks(text@),
            texts(bs@) == bv,
            forall|j: int| 0 <= j < i ==> block_ok(#[trigger] bv[j]),
            texts(tv@) == times(text@).take(i as int),
            i > 0 ==> texts(lav@) == block_view(bv[i - 1]).la,
            texts(flav@) == fluxes(text@).take(i as int).flatten(),
            i > 0 ==> per == fluxes(text@)[0].len(),
            uniform == (forall|j: int|
                0 <= j < i ==> (#[trigger] fluxes(text@)[j]).len() == per),
        decreases bs.len() - i,
    {
        assert(bv[i as int] == bs@[i as int]@);
        let b = match parse_block_chars(bs[i].as_slice()) {
            Ok(b) => b,
            Err(_) => {
                return Err(ParseError::Format);
            },
        };
        let Block { time, la, fla } = b;
        let mut fla = fla;
        let c = fla.len();
        assert(texts(fla@) == fluxes(text@)[i as int]);
        assert(c == fluxes(text@)[i as int].len());
        if i == 0 {
            per = c;
        } else if c != per {
            uniform = false;
        }
        proof {
            let ts = times(text@);
            let fs = fluxes(text@);
            assert(ts.take(i + 1) =~= ts.take(i as int).push(ts[i as int]));
            assert(texts(tv@.push(time)) =~= texts(tv@).push(time@));
            assert(fs.take(i + 1) =~= fs.take(i as int).push(fs[i as int]));
            fs.take(i as int).lemma_flatten_push(fs[i as int]);
            assert(texts(flav@ + fla@) =~= texts(flav@) + texts(fla@));
        }
        tv.push(time);
        lav = la;
        flav.append(&mut fla);
        i += 1;
    }
    proof {
        assert(times(text@).take(i as int) =~= times(text@));
        assert(fluxes(text@).take(i as int) =~= fluxes(text@));
        assert(blocks_ok(text@));
        lemma_shape(text@);
        assert(texts(lav@) == bins(text@));
    }
    let nt = tv.len();
    let nla = lav.len() / 2;
    if !uniform || nla == 0 || per % nla != 0 {
        return Err(ParseError::Shape);
    }
    let nth = per / nla;
    let th = angle_bins(nth);
    let r = Arrays { t: tv, la: lav, th, fla: flav, nt, nla, nth };
    proof {
        assert forall|j: int| 0 <= j < r@.t.len() implies is_literal(#[trigger] r@.t[j]) by {
            assert(block_ok(bv[j]));
            lemma_block_shape(bv[j]);
        }
        lemma_block_shape(bv.last());
        assert forall|j: int| 0 <= j < fluxes(text@).len() implies all_literal(
            #[trigger] fluxes(text@)[j],
        ) by {
            assert(block_ok(bv[j]));
            lemma_block_shape(bv[j]);
        }
        lemma_flatten_all_literal(fluxes(text@));
        assert(r@ == arrays_view(text@));
    }
    Ok(r)
}

} // verus!
