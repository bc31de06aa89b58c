//! Kinematics configuration types and the model factory.

use vstd::prelude::*;

verus! {

/// The underlying physical kinematics layout of the machine.
#[derive(Debug, Clone, Copy, PartialEq, Eq, Structural)]
pub enum KinematicsType {
    /// Standard Cartesian printer (bed moves Y, head moves X/Z).
    Cartesian,
    /// CoreXY mechanism where X and Y are coupled via belts.
    CoreXY,
    /// Five-axis mechanism: CoreXY head with a trunnion table for Z/A/C.
    TrunnionCoreXY,
}

/// The kinematics models that the factory can build.
#[derive(Debug, Clone, Copy, PartialEq, Eq, Structural)]
pub enum KinematicsModel {
    /// Each logical axis maps one to one onto an actuator.
    Cartesian,
    /// X and Y are coupled: motor A = x + y, motor B = x - y.
    CoreXY,
    /// CoreXY head over a tilting (A) and rotating (C) trunnion table, built
    /// with the configured trunnion geometry.
    TrunnionCoreXY,
}

/// Errors that can occur during kinematics initialization.
#[derive(Debug, PartialEq, Eq)]
pub enum KinematicsError {
    /// The configured kinematics type has no model; holds its name.
    UnsupportedType(String),
    /// A trunnion machine is configured without its trunnion geometry.
    MissingTrunnionGeometry,
}

/// The model that a configuration builds: its kinematics type, and for a
/// trunnion machine whether the trunnion geometry is given.
pub open spec fn spec_build_kinematics(kinematics_type: KinematicsType, has_trunnion_geometry: bool) -> Result<
    KinematicsModel,
    KinematicsError,
> {
    match kinematics_type {
        KinematicsType::Cartesian => Ok(KinematicsModel::Cartesian),
        KinematicsType::CoreXY => Ok(KinematicsModel::CoreXY),
        KinematicsType::TrunnionCoreXY => if has_trunnion_geometry {
            Ok(KinematicsModel::TrunnionCoreXY)
        } else {
            Err(KinematicsError::MissingTrunnionGeometry)
        },
    }
}

/// Chooses the kinematics model for the configured type; a trunnion machine
/// needs its trunnion geometry (`has_trunnion_geometry`).
pub fn build_kinematics(kinematics_type: KinematicsType, has_trunnion_geometry: bool) -> (res: Result<
    KinematicsModel,
    KinematicsError,
>)
    ensures
        res == spec_build_kinematics(kinematics_type, has_trunnion_geometry),
{
    match kinematics_type {
        KinematicsType::Cartesian => Ok(KinematicsModel::Cartesian),
        KinematicsType::CoreXY => Ok(KinematicsModel::CoreXY),
        KinematicsType::TrunnionCoreXY => {
            if has_trunnion_geometry {
                Ok(KinematicsModel::TrunnionCoreXY)
            } else {
                Err(KinematicsError::MissingTrunnionGeometry)
            }
        },
    }
}

/// The factory builds the model of the configured type, and fails exactly
/// for a trunnion machine without its trunnion geometry.
pub proof fn factory_builds_the_configured_model(kinematics_type: KinematicsType, has_trunnion_geometry: bool)
    ensures
        spec_build_kinematics(kinematics_type, has_trunnion_geometry) is Err <==> (kinematics_type
            == KinematicsType::TrunnionCoreXY && !has_trunnion_geometry),
        spec_build_kinematics(kinematics_type, has_trunnion_geometry) is Err ==> spec_build_kinematics(
            kinematics_type,
            has_trunnion_geometry,
        ) == Err::<KinematicsModel, KinematicsError>(KinematicsError::MissingTrunnionGeometry),
        spec_build_kinematics(kinematics_type, has_trunnion_geometry) matches Ok(m) ==> {
            &&& (kinematics_type == KinematicsType::Cartesian <==> m == KinematicsModel::Cartesian)
            &&& (kinematics_type == KinematicsType::CoreXY <==> m == KinematicsModel::CoreXY)
            &&& (kinematics_type == KinematicsType::TrunnionCoreXY <==> m
                == KinematicsModel::TrunnionCoreXY)
        },
        spec_build_kinematics(kinematics_type, true) is Ok,
{
}

} // verus!
