use crate::error::ParseError;
use crate::literal::{is_float_literal, is_literal};
use crate::text::{
    copy_range, lemma_split_nonempty, matches_at, split, split_on, texts, to_chars,
};
use vstd::prelude::*;

verus! {

/// Geometry of the ejecta: point source or plane source.
#[derive(Clone, Copy, Debug, PartialEq, Eq, Structural)]
pub enum Topo {
    P,
    S,
}

/// Number of wind components of the run.
#[derive(Clone, Copy, Debug, PartialEq, Eq, Structural)]
pub enum LanthWind {
    One,
    Two,
}

impl Topo {
    /// Integer code stored with the spectrum: 0 for a plane source, 1 for a
    /// point source.
    pub open spec fn code(self) -> int {
        match self {
            Topo::S => 0,
            Topo::P => 1,
        }
    }

    /// The letter that names the topology in file names.
    pub open spec fn letter(self) -> Seq<char> {
        match self {
            Topo::S => seq!['S'],
            Topo::P => seq!['P'],
        }
    }

    pub fn val(&self) -> (r: i32)
        ensures
            r == self.code(),
    {
        match self {
            Topo::S => 0,
            Topo::P => 1,
        }
    }

    pub fn str_val(&self) -> (r: &'static str)
        ensures
            r@ == self.letter(),
    {
        proof {
            reveal_strlit("S");
            reveal_strlit("P");
        }
        match self {
            Topo::S => {
                assert("S"@ =~= seq!['S']);
                "S"
            },
            Topo::P => {
                assert("P"@ =~= seq!['P']);
                "P"
            },
        }
    }
}

impl LanthWind {
    /// Integer code stored with the spectrum: the number of wind components.
    pub open spec fn code(self) -> int {
        match self {
            LanthWind::One => 1,
            LanthWind::Two => 2,
        }
    }

    pub fn val(&self) -> (r: i32)
        ensures
            r == self.code(),
    {
        match self {
            LanthWind::One => 1,
            LanthWind::Two => 2,
        }
    }
}

/// What a file name says of the run: topology, wind components, and the
/// mass and velocity of the dynamical ejecta (`md`, `vd`) and of the wind
/// (`mw`, `vw`), each as the literal that spells it.
pub struct MetadataView {
    pub topo: Topo,
    pub wind: LanthWind,
    pub md: Seq<char>,
    pub mw: Seq<char>,
    pub vd: Seq<char>,
    pub vw: Seq<char>,
}

/// The parameters of a run, read from the name of its file.
#[derive(Clone, Debug)]
pub struct Metadata {
    pub topo: Topo,
    pub wind: LanthWind,
    pub md: Vec<char>,
    pub mw: Vec<char>,
    pub vd: Vec<char>,
    pub vw: Vec<char>,
}

impl Metadata {
    /// Every parameter is a number.
    pub open spec fn wf(&self) -> bool {
        &&& is_literal(self.md@)
        &&& is_literal(self.mw@)
        &&& is_literal(self.vd@)
        &&& is_literal(self.vw@)
    }
}

impl View for Metadata {
    type V = MetadataView;

    open spec fn view(&self) -> MetadataView {
        MetadataView {
            topo: self.topo,
            wind: self.wind,
            md: self.md@,
            mw: self.mw@,
            vd: self.vd@,
            vw: self.vw@,
        }
    }
}

/// The last segment of a path.
pub open spec fn basename(path: Seq<char>) -> Seq<char> {
    split(path, seq!['/']).last()
}

/// The extension of a spectrum file.
pub open spec fn dat_suffix() -> Seq<char> {
    seq!['.', 'd', 'a', 't']
}

/// A file name without its `.dat` extension, if it has one.
pub open spec fn stem(name: Seq<char>) -> Seq<char> {
    if name.len() >= 4 && name.skip(name.len() - 4) == dat_suffix() {
        name.take(name.len() - 4)
    } else {
        name
    }
}

/// The fields of a file name: the pieces of its stem between underscores.
pub open spec fn fields(path: Seq<char>) -> Seq<Seq<char>> {
    split(stem(basename(path)), seq!['_'])
}

/// The number in a parameter field: the field without its two-character
/// label.
pub open spec fn param(field: Seq<char>) -> Seq<char> {
    field.skip(2)
}

/// A parameter field is well formed where a number follows its label.
pub open spec fn param_ok(field: Seq<char>) -> bool {
    field.len() >= 2 && is_literal(param(field))
}

/// A file name is well formed where it has at least eleven fields and the
/// four parameter fields are well formed.
pub open spec fn meta_ok(path: Seq<char>) -> bool {
    let f = fields(path);
    &&& f.len() >= 11
    &&& param_ok(f[7])
    &&& param_ok(f[8])
    &&& param_ok(f[9])
    &&& param_ok(f[10])
}

/// What a well-formed file name says.
pub open spec fn meta_view(path: Seq<char>) -> MetadataView {
    let f = fields(path);
    MetadataView {
        topo: if f[1] == seq!['T', 'P'] {
            Topo::P
        } else {
            Topo::S
        },
        wind: if f[5] == seq!['w', 'i', 'n', 'd', '2'] {
            LanthWind::Two
        } else {
            LanthWind::One
        },
        md: param(f[7]),
        vd: param(f[8]),
        mw: param(f[9]),
        vw: param(f[10]),
    }
}

/// The outcome of reading a file name.
pub open spec fn meta_outcome(path: Seq<char>) -> Result<MetadataView, ParseError> {
    if meta_ok(path) {
        Ok(meta_view(path))
    } else {
        Err(ParseError::Metadata)
    }
}

/// Whether `s` and `word` hold the same characters.
fn same_text(s: &[char], word: &[char]) -> (r: bool)
    ensures
        r == (s@ == word@),
{
    if s.len() != word.len() {
        return false;
    }
    assert(s@.subrange(0, word@.len() as int) =~= s@);
    matches_at(s, word, 0)
}

/// The number of a parameter field, where the field is well formed.
fn parse_param(field: &[char]) -> (r: Option<Vec<char>>)
    ensures
        match r {
            Some(p) => param_ok(field@) && p@ == param(field@),
            None => !param_ok(field@),
        },
{
    if field.len() < 2 {
        return None;
    }
    let p = copy_range(field, 2, field.len());
    assert(p@ =~= param(field@));
    if is_float_literal(p.as_slice()) {
        Some(p)
    } else {
        None
    }
}

/// Reads the parameters of a run from the name of its file.
///
/// Only the last segment of the path counts, without its `.dat` extension.
/// Its fields are the pieces between underscores: field 1 is `TP` for a
/// point source, field 5 is `wind2` for two wind components, and fields 7
/// to 10 hold `md`, `vd`, `mw` and `vw`, each behind a two-character label.
pub fn parse_filename(filename: &str) -> (r: Result<Metadata, ParseError>)
    ensures
        match r {
            Ok(m) => meta_outcome(filename@) == Ok::<MetadataView, ParseError>(m@),
            Err(e) => meta_outcome(filename@) == Err::<MetadataView, ParseError>(e),
        },
        r matches Ok(m) ==> m.wf(),
{
    let chars = to_chars(filename);
    let slash: [char; 1] = ['/'];
    let under: [char; 1] = ['_'];
    let dat: [char; 4] = ['.', 'd', 'a', 't'];
    let tp: [char; 2] = ['T', 'P'];
    let wind2: [char; 5] = ['w', 'i', 'n', 'd', '2'];
    proof {
        assert(slash@ =~= seq!['/']);
        assert(under@ =~= seq!['_']);
        assert(dat@ =~= dat_suffix());
        assert(tp@ =~= seq!['T', 'P']);
        assert(wind2@ =~= seq!['w', 'i', 'n', 'd', '2']);
    }
    let segments = split_on(chars.as_slice(), slash.as_slice());
    proof {
        lemma_split_nonempty(filename@, seq!['/']);
    }
    let name = segments[segments.len() - 1].as_slice();
    assert(name@ == basename(filename@));
    let n = name.len();
    let end = if n >= 4 && matches_at(name, dat.as_slice(), n - 4) {
        assert(name@.skip(n - 4) =~= name@.subrange(n - 4, n as int));
        n - 4
    } else {
        if n >= 4 {
            assert(name@.skip(n - 4) =~= name@.subrange(n - 4, n as int));
        }
        n
    };
    let bare = vstd::slice::slice_subrange(name, 0, end);
    assert(bare@ =~= stem(name@));
    let f = split_on(bare, under.as_slice());
    let ghost fv = fields(filename@);
    assert(texts(f@) == fv);
    if f.len() < 11 {
        return Err(ParseError::Metadata);
    }
    assert(fv[1] == f@[1]@ && fv[5] == f@[5]@);
    assert(fv[7] == f@[7]@ && fv[8] == f@[8]@ && fv[9] == f@[9]@ && fv[10] == f@[10]@);
    let topo = if same_text(f[1].as_slice(), tp.as_slice()) {
        Topo::P
    } else {
        Topo::S
    };
    let wind = if same_text(f[5].as_slice(), wind2.as_slice()) {
        LanthWind::Two
    } else {
        LanthWind::One
    };
    let md = match parse_param(f[7].as_slice()) {
        Some(p) => p,
        None => {
            return Err(ParseError::Metadata);
        },
    };
    let vd = match parse_param(f[8].as_slice()) {
        Some(p) => p,
        None => {
            return Err(ParseError::Metadata);
        },
    };
    let mw = match parse_param(f[9].as_slice()) {
        Some(p) => p,
        None => {
            return Err(ParseError::Metadata);
        },
    };
    let vw = match parse_param(f[10].as_slice()) {
        Some(p) => p,
        None => {
            return Err(ParseError::Metadata);
        },
    };
    Ok(Metadata { topo, wind, md, mw, vd, vw })
}

} // verus!
