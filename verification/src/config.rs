use vstd::prelude::*;

verus! {

/// The settings that the tool keeps between runs.
#[derive(Debug)]
pub struct Config {
    pub db_url: String,
    pub project_id: Option<String>,
}

/// The settings as plain text.
pub struct ConfigView {
    pub db_url: Seq<char>,
    pub project_id: Option<Seq<char>>,
}

impl View for Config {
    type V = ConfigView;

    open spec fn view(&self) -> ConfigView {
        ConfigView {
            db_url: self.db_url@,
            project_id: match self.project_id {
                Some(id) => Some(id@),
                None => None,
            },
        }
    }
}

/// The settings of a first run: no database and no project.
pub open spec fn initial_config() -> ConfigView {
    ConfigView { db_url: Seq::empty(), project_id: None }
}

/// The settings of a first run: no database and no project.
pub fn create_new_config() -> (config: Config)
    ensures
        config@ == initial_config(),
{
    Config { db_url: String::new(), project_id: None }
}

/// Decides what the settings of this run are, from what was found where the
/// settings are kept. Stored settings are taken as they are. Where nothing is
/// stored yet, the settings of a first run are taken, and the second part of
/// the result tells the caller to store them.
pub fn read(stored: Option<Config>) -> (loaded: (Config, bool))
    ensures
        match stored {
            Some(config) => loaded.0 == config && !loaded.1,
            None => loaded.0@ == initial_config() && loaded.1,
        },
{
    match stored {
        Some(config) => (config, false),
        None => (create_new_config(), true),
    }
}

} // verus!
