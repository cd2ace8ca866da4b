use vstd::prelude::*;
use crate::text::{opt_view, same_text};
use crate::normalize::{
    extract_display_size, extract_os, extract_weight, extract_year, normalize_sim_info,
    normalize_text, os_field, sim_field, size_field, text_field, weight_field, year_field,
};

verus! {

/// What a record holds, field by field; `None` is an unknown value.
pub struct CellView {
    pub oem: Option<Seq<char>>,
    pub model: Option<Seq<char>>,
    pub launch_announced: Option<i32>,
    pub launch_status: Option<Seq<char>>,
    pub body_dimensions: Option<Seq<char>>,
    pub body_weight: Option<Seq<char>>,
    pub body_sim: Option<Seq<char>>,
    pub display_type: Option<Seq<char>>,
    pub display_size: Option<Seq<char>>,
    pub display_resolution: Option<Seq<char>>,
    pub features_sensors: Option<Seq<char>>,
    pub platform_os: Option<Seq<char>>,
}

/// One phone, normalized. The weight (grams) and the display size (inches)
/// are held as canonical decimal text (see `canonical_decimal`), so that
/// two records are equal exactly when every field is, values included.
#[derive(Debug, Clone, Hash)]
pub struct Cell {
    pub oem: Option<String>,
    pub model: Option<String>,
    pub launch_announced: Option<i32>,
    pub launch_status: Option<String>,
    pub body_dimensions: Option<String>,
    pub body_weight: Option<String>,
    pub body_sim: Option<String>,
    pub display_type: Option<String>,
    pub display_size: Option<String>,
    pub display_resolution: Option<String>,
    pub features_sensors: Option<String>,
    pub platform_os: Option<String>,
}

impl View for Cell {
    type V = CellView;

    open spec fn view(&self) -> CellView {
        CellView {
            oem: opt_view(self.oem),
            model: opt_view(self.model),
            launch_announced: self.launch_announced,
            launch_status: opt_view(self.launch_status),
            body_dimensions: opt_view(self.body_dimensions),
            body_weight: opt_view(self.body_weight),
            body_sim: opt_view(self.body_sim),
            display_type: opt_view(self.display_type),
            display_size: opt_view(self.display_size),
            display_resolution: opt_view(self.display_resolution),
            features_sensors: opt_view(self.features_sensors),
            platform_os: opt_view(self.platform_os),
        }
    }
}

/// The record that a row of twelve raw fields normalizes to.
pub open spec fn record_of(f: Seq<Seq<char>>) -> CellView {
    CellView {
        oem: text_field(f[0]),
        model: text_field(f[1]),
        launch_announced: year_field(f[2]),
        launch_status: text_field(f[3]),
        body_dimensions: text_field(f[4]),
        body_weight: weight_field(f[5]),
        body_sim: sim_field(f[6]),
        display_type: text_field(f[7]),
        display_size: size_field(f[8]),
        display_resolution: text_field(f[9]),
        features_sensors: text_field(f[10]),
        platform_os: os_field(f[11]),
    }
}

/// Equality of two optional texts: both absent, or both present and equal.
pub fn same_opt_text(a: &Option<String>, b: &Option<String>) -> (r: bool)
    ensures
        r == (opt_view(*a) == opt_view(*b)),
{
    match (a, b) {
        (None, None) => true,
        (Some(x), Some(y)) => same_text(x.as_str(), y.as_str()),
        _ => false,
    }
}

impl Cell {
    /// Builds the record of one row of exactly twelve raw fields.
    pub fn from_csv_row(parts: &Vec<String>) -> (r: Cell)
        requires
            parts@.len() == 12,
        ensures
            r@ == record_of(parts@.map_values(|p: String| p@)),
    {
        let r = Cell {
            oem: normalize_text(parts[0].as_str()),
            model: normalize_text(parts[1].as_str()),
            launch_announced: extract_year(parts[2].as_str()),
            launch_status: normalize_text(parts[3].as_str()),
            body_dimensions: normalize_text(parts[4].as_str()),
            body_weight: extract_weight(parts[5].as_str()),
            body_sim: normalize_sim_info(parts[6].as_str()),
            display_type: normalize_text(parts[7].as_str()),
            display_size: extract_display_size(parts[8].as_str()),
            display_resolution: normalize_text(parts[9].as_str()),
            features_sensors: normalize_text(parts[10].as_str()),
            platform_os: extract_os(parts[11].as_str()),
        };
        r
    }

    pub fn extract_year(s: &str) -> (r: Option<i32>)
        ensures
            r == year_field(s@),
    {
        extract_year(s)
    }

    pub fn extract_weight(s: &str) -> (r: Option<String>)
        ensures
            opt_view(r) == weight_field(s@),
    {
        extract_weight(s)
    }

    pub fn extract_display_size(s: &str) -> (r: Option<String>)
        ensures
            opt_view(r) == size_field(s@),
    {
        extract_display_size(s)
    }

    pub fn extract_os(s: &str) -> (r: Option<String>)
        ensures
            opt_view(r) == os_field(s@),
    {
        extract_os(s)
    }

    /// Field-by-field equality; an absent value equals only an absent one.
    pub fn same_as(&self, other: &Cell) -> (r: bool)
        ensures
            r == (self@ == other@),
    {
        same_opt_text(&self.oem, &other.oem) && same_opt_text(&self.model, &other.model)
            && self.launch_announced == other.launch_announced
            && same_opt_text(&self.launch_status, &other.launch_status)
            && same_opt_text(&self.body_dimensions, &other.body_dimensions)
            && same_opt_text(&self.body_weight, &other.body_weight)
            && same_opt_text(&self.body_sim, &other.body_sim)
            && same_opt_text(&self.display_type, &other.display_type)
            && same_opt_text(&self.display_size, &other.display_size)
            && same_opt_text(&self.display_resolution, &other.display_resolution)
            && same_opt_text(&self.features_sensors, &other.features_sensors)
            && same_opt_text(&self.platform_os, &other.platform_os)
    }
}

impl PartialEq for Cell {
    fn eq(&self, other: &Cell) -> (r: bool) {
        self.same_as(other)
    }
}

impl vstd::std_specs::cmp::PartialEqSpecImpl for Cell {
    open spec fn obeys_eq_spec() -> bool {
        true
    }

    open spec fn eq_spec(&self, other: &Cell) -> bool {
        self@ == other@
    }
}

impl Eq for Cell {
}

/// Presence matters: a record with a weight never equals one without, even
/// where every other field agrees.
pub proof fn lemma_presence_distinguishes(a: CellView, b: CellView)
    requires
        a.body_weight is Some,
        b.body_weight is None,
    ensures
        a != b,
{
}

} // verus!
