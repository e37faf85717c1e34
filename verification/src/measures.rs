//! The fixed, ordered measure-name lists. They are the single source of
//! truth for the wide table's column order: the descriptor reader looks
//! names up in this order and the row emitter writes columns in this
//! order, whatever any one individual's files contain.

use vstd::prelude::*;

verus! {

/// The behavioral measure names, in their fixed column order.
pub open spec fn behavioural_measure_names() -> Seq<Seq<char>> {
    seq![
        "velocity"@,
        "displacement_velocity"@,
        "displacement_velocity_hill"@,
        "head_balance"@,
    ]
}

/// The phenotype measure names, in their fixed column order.
pub open spec fn phenotype_measure_names() -> Seq<Seq<char>> {
    seq![
        "branching"@,
        "branching_modules_count"@,
        "limbs"@,
        "extremities"@,
        "length_of_limbs"@,
        "extensiveness"@,
        "coverage"@,
        "joints"@,
        "hinge_count"@,
        "active_hinges_count"@,
        "brick_count"@,
        "touch_sensor_count"@,
        "brick_sensor_count"@,
        "proportion"@,
        "width"@,
        "height"@,
        "z_depth"@,
        "absolute_size"@,
        "sensors"@,
        "symmetry"@,
        "vertical_symmetry"@,
        "height_base_ratio"@,
        "base_density"@,
        "bottom_layer"@,
    ]
}

/// The behavioral measure names as owned strings, in column order.
pub fn behavioural_measures() -> (r: Vec<String>)
    ensures
        r.deep_view() =~= behavioural_measure_names(),
{
    let mut v: Vec<String> = Vec::new();
    v.push(String::from_str("velocity"));
    v.push(String::from_str("displacement_velocity"));
    v.push(String::from_str("displacement_velocity_hill"));
    v.push(String::from_str("head_balance"));
    v
}

/// The phenotype measure names as owned strings, in column order.
pub fn phenotype_measures() -> (r: Vec<String>)
    ensures
        r.deep_view() =~= phenotype_measure_names(),
{
    let mut v: Vec<String> = Vec::new();
    v.push(String::from_str("branching"));
    v.push(String::from_str("branching_modules_count"));
    v.push(String::from_str("limbs"));
    v.push(String::from_str("extremities"));
    v.push(String::from_str("length_of_limbs"));
    v.push(String::from_str("extensiveness"));
    v.push(String::from_str("coverage"));
    v.push(String::from_str("joints"));
    v.push(String::from_str("hinge_count"));
    v.push(String::from_str("active_hinges_count"));
    v.push(String::from_str("brick_count"));
    v.push(String::from_str("touch_sensor_count"));
    v.push(String::from_str("brick_sensor_count"));
    v.push(String::from_str("proportion"));
    v.push(String::from_str("width"));
    v.push(String::from_str("height"));
    v.push(String::from_str("z_depth"));
    v.push(String::from_str("absolute_size"));
    v.push(String::from_str("sensors"));
    v.push(String::from_str("symmetry"));
    v.push(String::from_str("vertical_symmetry"));
    v.push(String::from_str("height_base_ratio"));
    v.push(String::from_str("base_density"));
    v.push(String::from_str("bottom_layer"));
    v
}

} // verus!
