use crate::arrays::{parse_arrays, parse_outcome, Arrays, ArraysView};
use crate::error::ParseError;
use crate::meta::{meta_outcome, parse_filename, LanthWind, Metadata, MetadataView, Topo};
use vstd::prelude::*;
use vstd::string::StringExecFns;

verus! {

/// What a spectrum says: the parameters of the run and its arrays.
pub struct SpecView {
    pub meta: MetadataView,
    pub arrays: ArraysView,
}

/// The spectrum of one run: the parameters read from the name of its file,
/// and the arrays read from the file.
#[derive(Clone, Debug)]
pub struct SpecLANL {
    pub meta: Metadata,
    pub arrays: Arrays,
}

impl View for SpecLANL {
    type V = SpecView;

    open spec fn view(&self) -> SpecView {
        SpecView { meta: self.meta@, arrays: self.arrays@ }
    }
}

/// The outcome of converting a file: its name is read first, then its text.
pub open spec fn spec_outcome(path: Seq<char>, text: Seq<char>) -> Result<SpecView, ParseError> {
    match meta_outcome(path) {
        Err(e) => Err(e),
        Ok(meta) => match parse_outcome(text) {
            Err(e) => Err(e),
            Ok(arrays) => Ok(SpecView { meta, arrays }),
        },
    }
}

/// The digit that names the number of wind components in file names.
pub open spec fn wind_digit(wind: LanthWind) -> Seq<char> {
    match wind {
        LanthWind::One => seq!['1'],
        LanthWind::Two => seq!['2'],
    }
}

/// The name of the output file of a run. `md`, `vd`, `mw` and `vw` are the
/// four parameters as they are to appear in the name.
pub open spec fn h5_name(
    topo: Topo,
    wind: LanthWind,
    md: Seq<char>,
    vd: Seq<char>,
    mw: Seq<char>,
    vw: Seq<char>,
) -> Seq<char> {
    "LANL_KNSpec_T"@ + topo.letter() + "_wind"@ + wind_digit(wind) + "_md"@ + md + "_vd"@ + vd
        + "_mw"@ + mw + "_vw"@ + vw + ".h5"@
}

/// The path of a file named `name` in `directory`; an empty `directory`
/// gives the bare name.
pub open spec fn path_in(directory: Seq<char>, name: Seq<char>) -> Seq<char> {
    if directory.len() > 0 {
        directory + seq!['/'] + name
    } else {
        name
    }
}

fn wind_str(wind: LanthWind) -> (r: &'static str)
    ensures
        r@ == wind_digit(wind),
{
    proof {
        reveal_strlit("1");
        reveal_strlit("2");
    }
    match wind {
        LanthWind::One => {
            assert("1"@ =~= seq!['1']);
            "1"
        },
        LanthWind::Two => {
            assert("2"@ =~= seq!['2']);
            "2"
        },
    }
}

impl SpecLANL {
    /// Reads the spectrum of a run from the name of its file and the text
    /// that the file holds.
    pub fn new(filename: &str, contents: &str) -> (r: Result<SpecLANL, ParseError>)
        ensures
            match r {
                Ok(s) => spec_outcome(filename@, contents@) == Ok::<SpecView, ParseError>(s@),
                Err(e) => spec_outcome(filename@, contents@) == Err::<SpecView, ParseError>(e),
            },
            r matches Ok(s) ==> s.meta.wf() && s.arrays.wf(),
    {
        let meta = match parse_filename(filename) {
            Ok(m) => m,
            Err(e) => {
                return Err(e);
            },
        };
        let arrays = match parse_arrays(contents) {
            Ok(a) => a,
            Err(e) => {
                return Err(e);
            },
        };
        Ok(SpecLANL { meta, arrays })
    }

    /// The name of the output file. `md`, `vd`, `mw` and `vw` are the four
    /// parameters of the run, written by the caller with three decimals.
    pub fn gen_h5_filename(&self, md: &str, vd: &str, mw: &str, vw: &str) -> (r: String)
        ensures
            r@ == h5_name(self.meta.topo, self.meta.wind, md@, vd@, mw@, vw@),
    {
        let mut name = String::from_str("LANL_KNSpec_T");
        name.append(self.meta.topo.str_val());
        name.append("_wind");
        name.append(wind_str(self.meta.wind));
        name.append("_md");
        name.append(md);
        name.append("_vd");
        name.append(vd);
        name.append("_mw");
        name.append(mw);
        name.append("_vw");
        name.append(vw);
        name.append(".h5");
        name
    }

    /// The path of the output file in `directory`.
    pub fn h5_path(&self, directory: &str, md: &str, vd: &str, mw: &str, vw: &str) -> (r: String)
        ensures
            r@ == path_in(
                directory@,
                h5_name(self.meta.topo, self.meta.wind, md@, vd@, mw@, vw@),
            ),
    {
        let mut path = String::from_str(directory);
        if !directory.is_empty() {
            proof {
                reveal_strlit("/");
            }
            assert("/"@ =~= seq!['/']);
            path.append("/");
        }
        let name = self.gen_h5_filename(md, vd, mw, vw);
        path.append(name.as_str());
        proof {
            if directory@.len() == 0 {
                assert(path@ =~= name@);
            }
        }
        path
    }
}

} // verus!
