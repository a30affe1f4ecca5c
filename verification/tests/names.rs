use lanl_parser::error::ParseError;
use lanl_parser::meta::{LanthWind, Topo};
use lanl_parser::spectrum::SpecLANL;

const NAME: &str = "sim_TP_x_x_x_wind2_x_md0.500_vd0.100_mw0.250_vw0.050.dat";
const TEXT: &str = "t 0.5\n1 2 10 11\n2 3 12 13\n\n\nt 1.5\n1 2 20 21\n2 3 22 23\n";

fn number(text: &[char]) -> f64 {
    text.iter().collect::<String>().parse::<f64>().unwrap()
}

#[test]
fn topology_codes() {
    assert_eq!(Topo::S.val(), 0);
    assert_eq!(Topo::P.val(), 1);
    assert_eq!(Topo::S.str_val(), "S");
    assert_eq!(Topo::P.str_val(), "P");
}

#[test]
fn wind_codes() {
    assert_eq!(LanthWind::One.val(), 1);
    assert_eq!(LanthWind::Two.val(), 2);
}

#[test]
fn spectrum_holds_metadata_and_arrays() {
    let s = SpecLANL::new(NAME, TEXT).unwrap();
    assert_eq!(s.meta.topo, Topo::P);
    assert_eq!(s.meta.wind, LanthWind::Two);
    assert_eq!(number(&s.meta.md), 0.5);
    assert_eq!(number(&s.meta.vw), 0.05);
    assert_eq!((s.arrays.nt, s.arrays.nla, s.arrays.nth), (2, 2, 2));
    assert_eq!(number(s.arrays.flux(1, 0, 1)), 21.0);
}

#[test]
fn bad_name_is_reported_before_bad_text() {
    assert_eq!(SpecLANL::new("spectrum.dat", "").err(), Some(ParseError::Metadata));
    assert_eq!(SpecLANL::new("spectrum.dat", TEXT).err(), Some(ParseError::Metadata));
    assert_eq!(SpecLANL::new(NAME, "").err(), Some(ParseError::Format));
    assert_eq!(SpecLANL::new(NAME, "t 1").err(), Some(ParseError::Shape));
}

#[test]
fn converting_twice_gives_the_same_spectrum() {
    let a = SpecLANL::new(NAME, TEXT).unwrap();
    let b = SpecLANL::new(NAME, TEXT).unwrap();
    assert_eq!(a.meta.topo, b.meta.topo);
    assert_eq!(a.meta.wind, b.meta.wind);
    assert_eq!(a.meta.md, b.meta.md);
    assert_eq!(a.meta.vd, b.meta.vd);
    assert_eq!(a.meta.mw, b.meta.mw);
    assert_eq!(a.meta.vw, b.meta.vw);
    assert_eq!(a.arrays.t, b.arrays.t);
    assert_eq!(a.arrays.la, b.arrays.la);
    assert_eq!(a.arrays.th, b.arrays.th);
    assert_eq!(a.arrays.fla, b.arrays.fla);
}

#[test]
fn output_name_follows_the_template() {
    let s = SpecLANL::new(NAME, TEXT).unwrap();
    let md = format!("{:.3}", number(&s.meta.md));
    let vd = format!("{:.3}", number(&s.meta.vd));
    let mw = format!("{:.3}", number(&s.meta.mw));
    let vw = format!("{:.3}", number(&s.meta.vw));
    assert_eq!(
        s.gen_h5_filename(&md, &vd, &mw, &vw),
        "LANL_KNSpec_TP_wind2_md0.500_vd0.100_mw0.250_vw0.050.h5"
    );
}

#[test]
fn output_name_of_a_plane_source_with_one_wind() {
    let s = SpecLANL::new("a_TS_b_c_d_wind1_e_md1_vd2_mw3_vw4_f.dat", TEXT).unwrap();
    assert_eq!(
        s.gen_h5_filename("1.000", "2.000", "3.000", "4.000"),
        "LANL_KNSpec_TS_wind1_md1.000_vd2.000_mw3.000_vw4.000.h5"
    );
}

#[test]
fn output_path_joins_directory_and_name() {
    let s = SpecLANL::new(NAME, TEXT).unwrap();
    assert_eq!(
        s.h5_path("out", "0.500", "0.100", "0.250", "0.050"),
        "out/LANL_KNSpec_TP_wind2_md0.500_vd0.100_mw0.250_vw0.050.h5"
    );
    assert_eq!(
        s.h5_path("", "0.500", "0.100", "0.250", "0.050"),
        "LANL_KNSpec_TP_wind2_md0.500_vd0.100_mw0.250_vw0.050.h5"
    );
    assert_eq!(
        s.h5_path("/data/out/", "0.500", "0.100", "0.250", "0.050"),
        "/data/out//LANL_KNSpec_TP_wind2_md0.500_vd0.100_mw0.250_vw0.050.h5"
    );
}
