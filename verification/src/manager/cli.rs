//! The command line of the gallery manager and what it asks for.
use vstd::prelude::*;

verus! {

/// Where remote resources are fetched from.
#[derive(PartialEq, Eq, Structural, Clone, Copy, Debug)]
pub enum Source {
    Dropbox,
}

/// The kinds of resources that can be cleaned away.
#[derive(PartialEq, Eq, Structural, Clone, Copy, Debug)]
pub enum CleanTargets {
    Thumbnails,
    Data,
    All,
}

/// The formats the manifest can be printed in.
#[derive(PartialEq, Eq, Structural, Clone, Copy, Debug)]
pub enum ManifestOptions {
    Yaml,
    Json,
}

/// The options of a run of the gallery manager.
#[derive(Debug)]
pub struct Cli {
    /// Clean the given kind of resources.
    pub clean: Option<CleanTargets>,
    /// Clone the gallery published at this address.
    pub clone_url: Option<String>,
    /// Print the resources whose id matches this pattern.
    pub print_id: Option<String>,
    /// Print the resources whose file name matches this pattern.
    pub print_name: Option<String>,
    /// Generate derived resources.
    pub generate: bool,
    /// Create the resource folders if they do not exist.
    pub create_dir: bool,
    /// Fetch new and changed resources from Dropbox.
    pub sync_dropbox: bool,
    /// Print the manifest in this format.
    pub manifest: Option<ManifestOptions>,
    /// The folder to operate on.
    pub root: String,
}

/// Where the resources of a run come from, after cleanup.
#[derive(Debug)]
pub enum Origin {
    /// Clone the gallery at this address.
    Clone(String),
    /// Synchronise with Dropbox.
    Dropbox,
    /// Use the stored resources as they are.
    Stored,
}

/// What a run does with its resources once they are loaded. The options are
/// taken in a fixed order of precedence, and only the first given one acts.
#[derive(Debug)]
pub enum Action {
    Clean(CleanTargets),
    PrintIds(String),
    PrintNames(String),
    PrintManifest(ManifestOptions),
    Generate,
    Nothing,
}

impl Cli {
    /// Where the resources come from: a clone address wins over Dropbox.
    pub fn origin(&self) -> (o: Origin)
        ensures
            match self.clone_url {
                Some(u) => o matches Origin::Clone(v) && v@ == u@,
                None => if self.sync_dropbox { o is Dropbox } else { o is Stored },
            },
    {
        match &self.clone_url {
            Some(u) => Origin::Clone(u.clone()),
            None => if self.sync_dropbox { Origin::Dropbox } else { Origin::Stored },
        }
    }

    /// The action of the run: cleaning, then printing by id, by name, the
    /// manifest, and last generating.
    pub fn action(&self) -> (a: Action)
        ensures
            match self.clean {
                Some(t) => a == Action::Clean(t),
                None => match self.print_id {
                    Some(p) => a matches Action::PrintIds(q) && q@ == p@,
                    None => match self.print_name {
                        Some(p) => a matches Action::PrintNames(q) && q@ == p@,
                        None => match self.manifest {
                            Some(m) => a == Action::PrintManifest(m),
                            None => if self.generate { a is Generate } else { a is Nothing },
                        },
                    },
                },
            },
    {
        if let Some(t) = self.clean {
            return Action::Clean(t);
        }
        if let Some(p) = &self.print_id {
            return Action::PrintIds(p.clone());
        }
        if let Some(p) = &self.print_name {
            return Action::PrintNames(p.clone());
        }
        if let Some(m) = self.manifest {
            return Action::PrintManifest(m);
        }
        if self.generate { Action::Generate } else { Action::Nothing }
    }
}

} // verus!
