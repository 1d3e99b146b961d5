//! Coordinate reference descriptors.
use vstd::prelude::*;

verus! {

/// Projection of a coordinate.
#[derive(Debug, Clone, Copy, PartialEq, Eq, Structural)]
pub enum ProjectionType {
    WGS84,
    UTM,
    LocalCartesian,
}

/// Coordinate reference system of a raster dataset.
#[derive(Debug, Clone, Copy, PartialEq, Eq, Structural)]
pub enum CoordinateSystem {
    WGS84,
    UTM11N,
    LocalProjection,
}

/// UTM zone of the Sonoran Desert deployment area.
pub const SONORAN_UTM_ZONE: u8 = 11;

/// Converts coordinates from one projection to another within a UTM zone.
pub struct CoordinateTransformer {
    source_proj: ProjectionType,
    target_proj: ProjectionType,
    utm_zone: u8,
}

impl CoordinateTransformer {
    /// A transformer between two projections, working in the deployment
    /// area's UTM zone.
    pub fn new(source_proj: ProjectionType, target_proj: ProjectionType) -> (r: Self)
        ensures
            r.source_proj() == source_proj,
            r.target_proj() == target_proj,
            r.utm_zone() == SONORAN_UTM_ZONE,
    {
        CoordinateTransformer { source_proj, target_proj, utm_zone: SONORAN_UTM_ZONE }
    }

    /// Projection of the input coordinates.
    #[verifier::when_used_as_spec(spec_source_proj)]
    pub fn source_proj(&self) -> (r: ProjectionType)
        ensures
            r == self.spec_source_proj(),
    {
        self.source_proj
    }

    /// Projection of the output coordinates.
    #[verifier::when_used_as_spec(spec_target_proj)]
    pub fn target_proj(&self) -> (r: ProjectionType)
        ensures
            r == self.spec_target_proj(),
    {
        self.target_proj
    }

    /// UTM zone the transformer works in.
    #[verifier::when_used_as_spec(spec_utm_zone)]
    pub fn utm_zone(&self) -> (r: u8)
        ensures
            r == self.spec_utm_zone(),
    {
        self.utm_zone
    }

    pub closed spec fn spec_source_proj(&self) -> ProjectionType {
        self.source_proj
    }

    pub closed spec fn spec_target_proj(&self) -> ProjectionType {
        self.target_proj
    }

    pub closed spec fn spec_utm_zone(&self) -> u8 {
        self.utm_zone
    }
}

/// Geoid height model; its evaluation works on real-valued coordinates.
pub struct GeoidHeight;

/// Water-delivery router; its distance and routing work on real-valued
/// coordinates.
pub struct HydroRouter;

} // verus!
