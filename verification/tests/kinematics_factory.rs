use cam_studio::cli::Cli;
use cam_studio::kinematics::{build_kinematics, KinematicsError, KinematicsModel, KinematicsType};

#[test]
fn cartesian_and_corexy_are_built() {
    for geometry in [false, true] {
        assert_eq!(build_kinematics(KinematicsType::Cartesian, geometry), Ok(KinematicsModel::Cartesian));
        assert_eq!(build_kinematics(KinematicsType::CoreXY, geometry), Ok(KinematicsModel::CoreXY));
    }
}

#[test]
fn trunnion_is_built_with_its_geometry() {
    assert_eq!(
        build_kinematics(KinematicsType::TrunnionCoreXY, true),
        Ok(KinematicsModel::TrunnionCoreXY)
    );
}

#[test]
fn trunnion_without_geometry_is_refused() {
    assert_eq!(
        build_kinematics(KinematicsType::TrunnionCoreXY, false),
        Err(KinematicsError::MissingTrunnionGeometry)
    );
}

#[test]
fn cli_defaults() {
    let cli = Cli { config: None, headless: false, debug: false };
    assert_eq!(cli.config_path(), "printer.toml");
    assert_eq!(cli.log_level(), "info");
    let cli = Cli { config: Some("my.toml".to_string()), headless: true, debug: true };
    assert_eq!(cli.config_path(), "my.toml");
    assert_eq!(cli.log_level(), "debug");
}
