use vstd::prelude::*;

verus! {

/// What a test expects of the crates it builds.
#[derive(Clone, Copy, Debug, PartialEq, Eq, Structural)]
pub enum Mode {
    BuildFail,
    BuildSuccess,
    Expand,
}

/// The build profile.
#[derive(Clone, Copy, Debug, PartialEq, Eq, Structural)]
pub enum Profile {
    Debug,
    Release,
}

/// How the crates of one test are built and checked.
pub struct Config {
    pub mode: Mode,
    pub base_dir: String,
    pub target: Option<String>,
    pub profile: Profile,
    pub cargo_env: Vec<(String, String)>,
    pub cargo_command: String,
}

impl Config {
    /// A configuration for the crates under `base_dir`: release profile,
    /// the host target, no extra environment, the `cargo` command.
    pub fn new(mode: Mode, base_dir: &str) -> (r: Self)
        ensures
            r.mode == mode,
            r.base_dir@ == base_dir@,
            r.target is None,
            r.profile == Profile::Release,
            r.cargo_env@.len() == 0,
            r.cargo_command@ == "cargo"@,
    {
        Config {
            mode,
            base_dir: String::from_str(base_dir),
            target: None,
            profile: Profile::Release,
            cargo_env: Vec::new(),
            cargo_command: String::from_str("cargo"),
        }
    }

    /// Adds a variable to the environment of the build tool.
    pub fn add_cargo_env(&mut self, key: String, value: String)
        ensures
            final(self).cargo_env@ == old(self).cargo_env@.push((key, value)),
            final(self).mode == old(self).mode,
            final(self).base_dir == old(self).base_dir,
            final(self).target == old(self).target,
            final(self).profile == old(self).profile,
            final(self).cargo_command == old(self).cargo_command,
    {
        self.cargo_env.push((key, value));
    }
}

} // verus!
