use std::path::Path;
use molaxis::file_names;
use molaxis::mylib::file_names::{
    analyzed_folder, cop2mcs, cop2molaxis, lst2lstdecoded, try_cop2mcs, try_cop2molaxis,
    try_lst2lstdecoded,
};

#[test]
fn raw_list_to_decoded_list() {
    let p = "/exp/MT2020_1/raw/20220108_se000_add333.lst".to_string();
    assert_eq!(lst2lstdecoded(&p), "/exp/MT2020_1/1_decoded/20220108_se000_add333.lstdecoded");
}

#[test]
fn image_file_to_molecular_axis_file() {
    let p = "/exp/MT2020_1/1_COP/20220108_se000_add333.txt".to_string();
    assert_eq!(cop2molaxis(&p), "/exp/MT2020_1/2_molaxis/20220108_se000_add333.txt");
    assert_eq!(file_names::cop2molaxis(&p), "/exp/MT2020_1/2_molaxis/20220108_se000_add333.txt");
}

#[test]
fn image_file_to_decoded_list() {
    let p = "/exp/MT2020_1/1_COP/20220108_se000_add333.txt".to_string();
    assert_eq!(cop2mcs(&p), "/exp/MT2020_1/1_decoded/20220108_se000_add333.lstdecoded");
    assert_eq!(file_names::cop2mcs(&p), "/exp/MT2020_1/1_decoded/20220108_se000_add333.lstdecoded");
}

#[test]
fn analysis_folder_is_two_levels_up() {
    let p = "/exp/MT2020_1/2_combined/20220108_se000_add333.txt".to_string();
    assert_eq!(analyzed_folder(&p), "/exp/MT2020_1/3_analyzed");
}

#[test]
fn relative_paths() {
    let p = "1_COP/a.txt".to_string();
    assert_eq!(cop2molaxis(&p), "2_molaxis/a.txt");
    assert_eq!(cop2mcs(&p), "1_decoded/a.lstdecoded");
}

#[test]
fn paths_without_file_name_are_refused() {
    let p = "/exp/MT2020_1/..".to_string();
    assert_eq!(try_cop2molaxis(&p), None);
    assert_eq!(try_cop2mcs(&p), None);
    assert_eq!(try_lst2lstdecoded(&p), None);
    assert_eq!(try_cop2mcs(&"/".to_string()), None);
    assert_eq!(
        try_cop2mcs(&"/e/1_COP/b.txt".to_string()),
        Some("/e/1_decoded/b.lstdecoded".to_string())
    );
}

#[test]
fn mapped_files_keep_their_name_and_folders_their_stage() {
    let p = "/exp/MT2020_1/1_COP/20220108_se000_add333.txt".to_string();
    let m = cop2molaxis(&p);
    assert_eq!(Path::new(&m).file_name(), Path::new(&p).file_name());
    let a = analyzed_folder(&p);
    assert_eq!(Path::new(&a).file_name().unwrap(), "3_analyzed");
}
