use vstd::prelude::*;

verus! {

/// The password of the network group when the configuration names none.
pub const DEFAULT_PASSWORD: &'static str = "sp2p-default-net";

/// The user's configuration: peers to reach directly, and the group password.
pub struct Config {
    pub peers: Vec<String>,
    pub password: Option<String>,
}

impl Default for Config {
    /// The configuration written on first start: no peers, the default password.
    fn default() -> (res: Config)
        ensures
            res.peers@ == Seq::<String>::empty(),
            res.password matches Some(p) && p@ == DEFAULT_PASSWORD@,
    {
        Config { peers: Vec::new(), password: Some(DEFAULT_PASSWORD.to_string()) }
    }
}

impl Config {
    /// The password the group key is derived from: the configured one, or the default.
    pub fn effective_password(&self) -> (res: String)
        ensures
            res@ == (match self.password {
                Some(p) => p@,
                None => DEFAULT_PASSWORD@,
            }),
    {
        match &self.password {
            Some(p) => p.clone(),
            None => DEFAULT_PASSWORD.to_string(),
        }
    }
}

} // verus!
