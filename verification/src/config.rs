//! The client's settings: where the server is and how to authenticate.
use vstd::prelude::*;
use crate::text::{replace_char, trim, trimmed, replaced, lemma_replaced_keeps, concatenate};

verus! {

broadcast use vstd::string::group_string_axioms;

/// Where the settings are kept, relative to the home directory (`~`).
pub const CONFIG_PATH: &'static str = "~/.config/kuma/kc.conf";

/// The REST API port offered when none is entered.
pub const DEFAULT_PORT: &'static str = "7223";

/// The settings file's path below the home directory.
pub open spec fn config_path_tail() -> Seq<char> {
    seq!['/', '.', 'c', 'o', 'n', 'f', 'i', 'g', '/', 'k', 'u', 'm', 'a', '/', 'k', 'c', '.', 'c', 'o', 'n', 'f']
}

/// The path of the settings file for the home directory `home`: `CONFIG_PATH`
/// with `~` replaced by `home`.
pub fn config_path(home: &str) -> (r: String)
    ensures
        r@ == home@ + config_path_tail(),
{
    proof {
        reveal_strlit("~/.config/kuma/kc.conf");
        assert(CONFIG_PATH@ =~= seq!['~'] + config_path_tail());
        assert(!config_path_tail().contains('~')) by {
            if config_path_tail().contains('~') {
                let k = choose|k: int|
                    0 <= k < config_path_tail().len() && config_path_tail()[k] == '~';
                assert(config_path_tail()[k] != '~');
            }
        }
        lemma_replaced_keeps(seq!['~'], config_path_tail(), '~', home@);
        assert(seq!['~'].drop_last() =~= Seq::<char>::empty());
        assert(seq!['~'].last() == '~');
        assert(replaced(Seq::<char>::empty(), '~', home@) == Seq::<char>::empty());
        assert(replaced(seq!['~'], '~', home@) == replaced(Seq::<char>::empty(), '~', home@) + home@);
        assert(replaced(seq!['~'], '~', home@) =~= home@);
    }
    replace_char(CONFIG_PATH, '~', home)
}

/// Why a configuration cannot be used.
#[derive(Debug, PartialEq, Eq, Structural)]
pub enum ConfigError {
    /// The token is empty.
    EmptyToken,
    /// The server URL is empty.
    EmptyUrl,
}

/// How to reach and authenticate to the server.
#[derive(Debug, Clone)]
pub struct Config {
    /// The bearer token sent with each request.
    pub token: String,
    /// The server as `host:port`.
    pub url: String,
}

impl Config {
    /// What `validate` answers: the token is checked first, then the URL.
    pub open spec fn check(&self) -> Result<(), ConfigError> {
        if self.token@.len() == 0 {
            Err(ConfigError::EmptyToken)
        } else if self.url@.len() == 0 {
            Err(ConfigError::EmptyUrl)
        } else {
            Ok(())
        }
    }

    /// Refuses a configuration with an empty token or an empty URL.
    pub fn validate(&self) -> (r: Result<(), ConfigError>)
        ensures
            r == self.check(),
    {
        if self.token.as_str().is_empty() {
            return Err(ConfigError::EmptyToken);
        }
        if self.url.as_str().is_empty() {
            return Err(ConfigError::EmptyUrl);
        }
        Ok(())
    }

    /// The server URL made of the answers to the prompts: the host and the
    /// port, each trimmed, joined by `:`; an empty port means `DEFAULT_PORT`.
    pub open spec fn answered_url(core_url: Seq<char>, port: Seq<char>) -> Seq<char> {
        let p = trimmed(port);
        trimmed(core_url) + seq![':'] + if p.len() == 0 {
            seq!['7', '2', '2', '3']
        } else {
            p
        }
    }

    /// The configuration that the interactive setup writes from the answers
    /// to its prompts (host, port, token).
    pub fn from_answers(core_url: &str, port: &str, token: String) -> (r: Config)
        ensures
            r.token == token,
            r.url@ == Config::answered_url(core_url@, port@),
    {
        let host = trim(core_url);
        let mut p = trim(port);
        if p.as_str().is_empty() {
            proof {
                reveal_strlit("7223");
            }
            p = DEFAULT_PORT.to_owned();
            assert(p@ =~= seq!['7', '2', '2', '3']);
        }
        proof {
            reveal_strlit(":");
        }
        let mut url = concatenate(host.as_str(), ":");
        url.append(p.as_str());
        assert(url@ =~= Config::answered_url(core_url@, port@));
        Config { token, url }
    }
}

/// The URL made of the setup's answers is the trimmed host, a `:`, and the
/// trimmed port, or 7223 where no port was entered.
pub proof fn lemma_answered_url(core_url: Seq<char>, port: Seq<char>)
    ensures
        ({
            let url = Config::answered_url(core_url, port);
            let host = trimmed(core_url);
            let p = if trimmed(port).len() == 0 {
                seq!['7', '2', '2', '3']
            } else {
                trimmed(port)
            };
            &&& url.subrange(0, host.len() as int) == host
            &&& url[host.len() as int] == ':'
            &&& url.skip((host.len() + 1) as int) == p
        }),
{
    let url = Config::answered_url(core_url, port);
    let host = trimmed(core_url);
    assert(url.subrange(0, host.len() as int) =~= host);
    assert(url.skip((host.len() + 1) as int) =~= if trimmed(port).len() == 0 {
        seq!['7', '2', '2', '3']
    } else {
        trimmed(port)
    });
}

/// A configuration made from the setup's answers always has a URL, so it is
/// refused exactly when the token is empty.
pub proof fn lemma_answers_validate(core_url: Seq<char>, port: Seq<char>, token: String, url: String)
    requires
        url@ == Config::answered_url(core_url, port),
    ensures
        (Config { token, url }).check() is Ok <==> token@.len() > 0,
        token@.len() == 0 ==> (Config { token, url }).check() == Err::<(), ConfigError>(
            ConfigError::EmptyToken,
        ),
{
    assert(url@[trimmed(core_url).len() as int] == ':');
}

} // verus!
