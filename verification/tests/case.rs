use scalp::Case;
use std::fmt;

#[test]
fn pascal() -> Result<(), fmt::Error> {
    let convert = |value| Case::pascal(value);
    assert_eq!(convert("BobaFett"), "BobaFett");
    assert_eq!(convert("bobaFett"), "BobaFett");
    assert_eq!(convert("boba fett"), "BobaFett");
    assert_eq!(convert("BOBA-FETT"), "BobaFett");
    assert_eq!(convert("BOBA"), "Boba");
    assert_eq!(convert("BOBA_FETT"), "BobaFett");
    assert_eq!(convert("boba-fett"), "BobaFett");
    assert_eq!(convert("_Boba_"), "Boba");
    assert_eq!(convert("_boba_"), "Boba");
    assert_eq!(convert("-Boba-"), "Boba");
    assert_eq!(convert("-boba-"), "Boba");
    assert_eq!(convert("1boba2fett"), "1Boba2Fett");
    assert_eq!(convert("1boBa2FetT"), "1BoBa2FetT");
    assert_eq!(convert("BObaFeTT"), "BobaFeTt");
    Ok(())
}

#[test]
fn camel() -> Result<(), fmt::Error> {
    let convert = |value| Case::camel(value);
    assert_eq!(convert("BobaFett"), "bobaFett");
    assert_eq!(convert("bobaFett"), "bobaFett");
    assert_eq!(convert("boba fett"), "bobaFett");
    assert_eq!(convert("BOBA-FETT"), "bobaFett");
    assert_eq!(convert("BOBA"), "boba");
    assert_eq!(convert("BOBA_FETT"), "bobaFett");
    assert_eq!(convert("boba-fett"), "bobaFett");
    assert_eq!(convert("_Boba_"), "boba");
    assert_eq!(convert("_boba_"), "boba");
    assert_eq!(convert("-Boba-"), "boba");
    assert_eq!(convert("-boba-"), "boba");
    assert_eq!(convert("1boba2fett"), "1boba2Fett");
    assert_eq!(convert("1boBa2FetT"), "1boBa2FetT");
    assert_eq!(convert("BObaFeTT"), "bobaFeTt");
    Ok(())
}

#[test]
fn snake() -> Result<(), fmt::Error> {
    let convert = |value| Case::snake(value, false);
    assert_eq!(convert("BobaFett"), "boba_fett");
    assert_eq!(convert("bobaFett"), "boba_fett");
    assert_eq!(convert("boba fett"), "boba_fett");
    assert_eq!(convert("BOBA-FETT"), "boba_fett");
    assert_eq!(convert("BOBA"), "boba");
    assert_eq!(convert("BOBA_FETT"), "boba_fett");
    assert_eq!(convert("boba-fett"), "boba_fett");
    assert_eq!(convert("_Boba_"), "boba");
    assert_eq!(convert("_boba_"), "boba");
    assert_eq!(convert("-Boba-"), "boba");
    assert_eq!(convert("-boba-"), "boba");
    assert_eq!(convert("1boba2fett"), "1boba2fett");
    assert_eq!(convert("1boBa2FetT"), "1bo_ba2fet_t");
    assert_eq!(convert("BObaFeTT"), "boba_fe_tt");
    Ok(())
}

#[test]
fn kebab() -> Result<(), fmt::Error> {
    let convert = |value| Case::kebab(value, false);
    assert_eq!(convert("BobaFett"), "boba-fett");
    assert_eq!(convert("bobaFett"), "boba-fett");
    assert_eq!(convert("boba fett"), "boba-fett");
    assert_eq!(convert("BOBA-FETT"), "boba-fett");
    assert_eq!(convert("BOBA"), "boba");
    assert_eq!(convert("BOBA_FETT"), "boba-fett");
    assert_eq!(convert("boba-fett"), "boba-fett");
    assert_eq!(convert("_Boba_"), "boba");
    assert_eq!(convert("_boba_"), "boba");
    assert_eq!(convert("-Boba-"), "boba");
    assert_eq!(convert("-boba-"), "boba");
    assert_eq!(convert("1boba2fett"), "1boba2fett");
    assert_eq!(convert("1boBa2FetT"), "1bo-ba2fet-t");
    assert_eq!(convert("BObaFeTT"), "boba-fe-tt");
    Ok(())
}

#[test]
fn upper() -> Result<(), fmt::Error> {
    let convert = |value| Case::upper(value);
    assert_eq!(convert("BobaFett"), "BOBAFETT");
    assert_eq!(convert("bobaFett"), "BOBAFETT");
    assert_eq!(convert("boba fett"), "BOBAFETT");
    assert_eq!(convert("BOBA-FETT"), "BOBAFETT");
    assert_eq!(convert("BOBA"), "BOBA");
    assert_eq!(convert("BOBA_FETT"), "BOBAFETT");
    assert_eq!(convert("boba-fett"), "BOBAFETT");
    assert_eq!(convert("_Boba_"), "BOBA");
    assert_eq!(convert("_boba_"), "BOBA");
    assert_eq!(convert("-Boba-"), "BOBA");
    assert_eq!(convert("-boba-"), "BOBA");
    assert_eq!(convert("1boba2fett"), "1BOBA2FETT");
    assert_eq!(convert("1boBa2FetT"), "1BOBA2FETT");
    assert_eq!(convert("BObaFeTT"), "BOBAFETT");
    Ok(())
}

#[test]
fn upper_snake() -> Result<(), fmt::Error> {
    let convert = |value| Case::snake(value, true);
    assert_eq!(convert("BobaFett"), "BOBA_FETT");
    assert_eq!(convert("bobaFett"), "BOBA_FETT");
    assert_eq!(convert("boba fett"), "BOBA_FETT");
    assert_eq!(convert("BOBA-FETT"), "BOBA_FETT");
    assert_eq!(convert("BOBA"), "BOBA");
    assert_eq!(convert("BOBA_FETT"), "BOBA_FETT");
    assert_eq!(convert("boba-fett"), "BOBA_FETT");
    assert_eq!(convert("_Boba_"), "BOBA");
    assert_eq!(convert("_boba_"), "BOBA");
    assert_eq!(convert("-Boba-"), "BOBA");
    assert_eq!(convert("-boba-"), "BOBA");
    assert_eq!(convert("1boba2fett"), "1BOBA2FETT");
    assert_eq!(convert("1boBa2FetT"), "1BO_BA2FET_T");
    assert_eq!(convert("BObaFeTT"), "BOBA_FE_TT");
    Ok(())
}

#[test]
fn upper_kebab() -> Result<(), fmt::Error> {
    let convert = |value| Case::kebab(value, true);
    assert_eq!(convert("BobaFett"), "BOBA-FETT");
    assert_eq!(convert("bobaFett"), "BOBA-FETT");
    assert_eq!(convert("boba fett"), "BOBA-FETT");
    assert_eq!(convert("BOBA-FETT"), "BOBA-FETT");
    assert_eq!(convert("BOBA"), "BOBA");
    assert_eq!(convert("BOBA_FETT"), "BOBA-FETT");
    assert_eq!(convert("boba-fett"), "BOBA-FETT");
    assert_eq!(convert("_Boba_"), "BOBA");
    assert_eq!(convert("_boba_"), "BOBA");
    assert_eq!(convert("-Boba-"), "BOBA");
    assert_eq!(convert("-boba-"), "BOBA");
    assert_eq!(convert("1boba2fett"), "1BOBA2FETT");
    assert_eq!(convert("1boBa2FetT"), "1BO-BA2FET-T");
    assert_eq!(convert("BObaFeTT"), "BOBA-FE-TT");
    Ok(())
}
