//! Names and paths of the containers a pipeline runs in: one long-lived base
//! zone per pipeline and one ephemeral run zone per invocation. Only the
//! naming lives here; the calls that create and destroy zones are the
//! runner's concern.

use vstd::prelude::*;
use vstd::string::*;

verus! {

/// Base container, or a run container identified by its run id.
#[derive(Debug, Clone)]
pub enum ZoneType {
    Base,
    Run(String),
}

/// The container of one pipeline: its name parts.
#[derive(Debug, Clone)]
pub struct PipelineZone {
    pub pipeline: String,
    pub zone_type: ZoneType,
}

/// The identifier a zone type contributes to names and paths.
pub open spec fn spec_zone_id(z: ZoneType) -> Seq<char> {
    match z {
        ZoneType::Base => "base"@,
        ZoneType::Run(id) => id@,
    }
}

impl ZoneType {
    /// The identifier this zone type contributes to names and paths.
    pub fn id(&self) -> (r: String)
        ensures
            r@ == spec_zone_id(*self),
    {
        match self {
            ZoneType::Base => String::from_str("base"),
            ZoneType::Run(id) => id.clone(),
        }
    }
}

impl PipelineZone {
    /// The dataset root shared by all zones of this pipeline.
    pub fn root_path(&self) -> (r: String)
        ensures
            r@ == "/zones/ci/"@ + self.pipeline@,
    {
        let mut s = String::from_str("/zones/ci/");
        s.append(self.pipeline.as_str());
        s
    }

    /// Where this zone lives on disk.
    pub fn path(&self) -> (r: String)
        ensures
            r@ == "/zones/ci/"@ + self.pipeline@ + "/"@ + spec_zone_id(self.zone_type),
    {
        let mut s = self.root_path();
        s.append("/");
        let id = self.zone_type.id();
        s.append(id.as_str());
        s
    }

    /// The zone's name as the container runtime sees it.
    pub fn name(&self) -> (r: String)
        ensures
            r@ == "ci_"@ + self.pipeline@ + "_"@ + spec_zone_id(self.zone_type),
    {
        let mut s = String::from_str("ci_");
        s.append(self.pipeline.as_str());
        s.append("_");
        let id = self.zone_type.id();
        s.append(id.as_str());
        s
    }

    /// The virtual NIC this zone attaches to.
    pub fn vnic_name(&self) -> (r: String)
        ensures
            r@ == "ci_"@ + self.pipeline@ + "_"@ + spec_zone_id(self.zone_type)
                + "_internal0"@,
    {
        let mut s = self.name();
        s.append("_internal0");
        s
    }

    /// The ephemeral run zone for one invocation of this pipeline.
    pub fn get_run_pzone(&self, run_id: &String) -> (r: PipelineZone)
        ensures
            r.pipeline@ == self.pipeline@,
            r.zone_type is Run && r.zone_type->Run_0@ == run_id@,
    {
        PipelineZone {
            pipeline: self.pipeline.clone(),
            zone_type: ZoneType::Run(run_id.clone()),
        }
    }
}

} // verus!
