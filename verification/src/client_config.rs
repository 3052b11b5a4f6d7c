use vstd::prelude::*;

verus! {

/// The client's settings.
#[derive(Debug)]
pub struct ClientConfig {
    pub server_url: String,
    pub language: String,
    pub username: Option<String>,
}

impl Default for ClientConfig {
    /// The local server, English, no remembered user.
    fn default() -> (c: Self)
        ensures
            c.server_url@ == "wss://localhost:8443"@,
            c.language@ == "en"@,
            c.username.is_none(),
    {
        ClientConfig {
            server_url: "wss://localhost:8443".to_owned(),
            language: "en".to_owned(),
            username: None,
        }
    }
}

/// The user's home directory as text (`dirs::home_dir`, each path taken by
/// `to_string_lossy`). It comes from the environment and the platform, so
/// nothing is claimed of it.
#[verifier::external_body]
fn home_dir_text() -> (r: Option<String>) {
    match dirs::home_dir() {
        Some(p) => Some(p.to_string_lossy().into_owned()),
        None => None,
    }
}

/// The directory under which the client's files are kept: the home
/// directory, or the current directory `.` where there is none.
pub open spec fn base_dir_text(home: Option<Seq<char>>) -> Seq<char> {
    match home {
        Some(h) => h,
        None => "."@,
    }
}

/// `.gamecenter` under the base directory.
pub open spec fn config_dir_text(home: Option<Seq<char>>) -> Seq<char> {
    base_dir_text(home) + "/.gamecenter"@
}

/// `config.toml` in the configuration directory.
pub open spec fn config_path_text(home: Option<Seq<char>>) -> Seq<char> {
    config_dir_text(home) + "/config.toml"@
}

/// The text of an optional home directory, as a sequence.
pub open spec fn home_view(home: Option<String>) -> Option<Seq<char>> {
    match home {
        Some(h) => Some(h@),
        None => None,
    }
}

impl ClientConfig {
    /// The directory holding the client's files for the home directory
    /// `home`: `.gamecenter` in it, or in the current directory `.` when
    /// there is none.
    pub fn config_dir_for(home: Option<String>) -> (r: String)
        ensures
            r@ == config_dir_text(home_view(home)),
    {
        let mut dir = match home {
            Some(t) => t,
            None => ".".to_owned(),
        };
        dir.append("/.gamecenter");
        dir
    }

    /// The configuration file for the home directory `home`:
    /// `config.toml` in `config_dir_for(home)`.
    pub fn config_path_for(home: Option<String>) -> (r: String)
        ensures
            r@ == config_path_text(home_view(home)),
    {
        let mut path = ClientConfig::config_dir_for(home);
        path.append("/config.toml");
        path
    }

    /// The directory holding the client's files, `~/.gamecenter`, for the
    /// user's home directory as the environment gives it.
    pub fn config_dir() -> (r: String)
        ensures
            exists|home: Option<Seq<char>>| r@ == config_dir_text(home),
    {
        let home = home_dir_text();
        let r = ClientConfig::config_dir_for(home);
        assert(r@ == config_dir_text(home_view(home)));
        r
    }

    /// The configuration file, `~/.gamecenter/config.toml`.
    pub fn config_path() -> (r: String)
        ensures
            exists|home: Option<Seq<char>>| r@ == config_path_text(home),
    {
        let home = home_dir_text();
        let r = ClientConfig::config_path_for(home);
        assert(r@ == config_path_text(home_view(home)));
        r
    }
}

} // verus!
