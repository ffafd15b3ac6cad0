use anyhow::Result;
use dotted_version::Version;

#[test]
fn compare_versions() -> Result<()> {
    assert!("1.2.3.4".parse::<Version>()? == "1.2.3.4".parse::<Version>()?);
    assert!("1.2.3.3".parse::<Version>()? < "1.2.3.4".parse::<Version>()?);
    assert!("1.2.0.4".parse::<Version>()? < "1.2.3.4".parse::<Version>()?);
    assert!("2.1.1.9".parse::<Version>()? > "2.1.1.8".parse::<Version>()?);
    assert!("1.1.1".parse::<Version>()? < "1.1.1.2".parse::<Version>()?);
    assert!("1.0.0".parse::<Version>()? < "1.1.0.0".parse::<Version>()?);
    assert!("2.0.0".parse::<Version>()? > "1.1.0.0".parse::<Version>()?);
    assert!("1.1.0".parse::<Version>()? == "1.1.0.0".parse::<Version>()?);
    assert!("1.1".parse::<Version>()? == "1.1.0".parse::<Version>()?);
    assert!("1.1-rc1".parse::<Version>()? == "1.1-rc2".parse::<Version>()?);
    Ok(())
}
