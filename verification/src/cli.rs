use vstd::prelude::*;

verus! {

/// The parsed command line: a subcommand and the configuration file to load.
pub struct Cli {
    pub command: Commands,
    pub config: String,
}

/// The two command families: read-only checks and corrective drops.
pub enum Commands {
    Check { resource: ResourceType },
    Drop { resource: ResourceDropType },
}

/// What a read-only check inspects.
pub enum ResourceType {
    Cpu,
    Disk,
    Network,
}

/// What a corrective drop acts on; a disk drop may carry an extension
/// allow-list restricting which matched files are deleted.
pub enum ResourceDropType {
    Cpu,
    Disk { ext: Option<Vec<String>> },
}

/// The configuration file consulted when none is named on the command line.
pub fn default_config_path() -> (s: String)
    ensures
        s@ == "triage.yaml"@,
{
    "triage.yaml".to_owned()
}

} // verus!
