//! The bot's settings, and the environment variables that override a bot's
//! API key.

use vstd::prelude::*;

verus! {

/// Default for `Config::max_concurrent_processes`.
pub const DEFAULT_MAX_CONCURRENT_PROCESSES: usize = 5;

/// Default for `Config::queue_capacity`.
pub const DEFAULT_QUEUE_CAPACITY: usize = 1000;

/// Default for `Config::base_url`.
pub const DEFAULT_BASE_URL: &'static str = "https://hivegame.com";

/// Prefix of the environment variables that override settings.
pub const ENV_PREFIX: &'static str = "HIVE_HYDRA";

/// The settings of the program.
pub struct Config {
    pub max_concurrent_processes: usize,
    pub queue_capacity: usize,
    pub base_url: String,
    pub bots: Vec<BotConfig>,
}

/// The settings of one bot account and of the engine that plays for it.
pub struct BotConfig {
    pub name: String,
    pub uri: String,
    pub ai_command: String,
    pub bestmove_command_args: String,
    pub api_key: String,
}

impl Clone for BotConfig {
    fn clone(&self) -> (copy: Self)
        ensures
            copy == *self,
    {
        BotConfig {
            name: self.name.clone(),
            uri: self.uri.clone(),
            ai_command: self.ai_command.clone(),
            bestmove_command_args: self.bestmove_command_args.clone(),
            api_key: self.api_key.clone(),
        }
    }
}

/// What `str::to_uppercase` gives for a string with these characters.
pub uninterp spec fn str_to_uppercase(s: Seq<char>) -> Seq<char>;

/// Upper-cases `s` through `str::to_uppercase`.
///
/// Trusted: the result is `str_to_uppercase(s@)`, a function of the
/// characters of `s` alone (Unicode's mapping is not written out).
#[verifier::external_body]
fn to_uppercase(s: &str) -> (upper: String)
    ensures
        upper@ == str_to_uppercase(s@),
{
    s.to_uppercase()
}

/// The name of the environment variable that overrides the API key of the
/// bot with this name: `HIVE_HYDRA_BOT_<NAME IN UPPER CASE>_API_KEY`.
pub open spec fn api_key_var(bot_name: Seq<char>) -> Seq<char> {
    upper_api_key_var(str_to_uppercase(bot_name))
}

/// `HIVE_HYDRA_BOT_<upper_name>_API_KEY`
pub open spec fn upper_api_key_var(upper_name: Seq<char>) -> Seq<char> {
    "HIVE_HYDRA_BOT_"@ + upper_name + "_API_KEY"@
}

/// The value of `key` among environment variables given as (name, value)
/// pairs: the last pair with that name wins, as when the pairs are collected
/// into a map.
pub open spec fn env_value(env: Seq<(String, String)>, key: Seq<char>) -> Option<Seq<char>>
    decreases env.len(),
{
    if env.len() == 0 {
        None
    } else if env.last().0@ == key {
        Some(env.last().1@)
    } else {
        env_value(env.drop_last(), key)
    }
}

/// The API key of a bot after the overrides: the value of its environment
/// variable where there is one, else the key it had.
pub open spec fn overridden_api_key(
    bot_name: Seq<char>,
    api_key: Seq<char>,
    env: Seq<(String, String)>,
) -> Seq<char> {
    match env_value(env, api_key_var(bot_name)) {
        Some(value) => value,
        None => api_key,
    }
}

/// `after` is `before` with its API key overridden from `env`.
pub open spec fn bot_overridden(
    before: BotConfig,
    after: BotConfig,
    env: Seq<(String, String)>,
) -> bool {
    &&& after.name == before.name
    &&& after.uri == before.uri
    &&& after.ai_command == before.ai_command
    &&& after.bestmove_command_args == before.bestmove_command_args
    &&& after.api_key@ == overridden_api_key(before.name@, before.api_key@, env)
}

/// The name of the environment variable for a bot whose name, upper-cased,
/// is `upper_name`: `HIVE_HYDRA_BOT_<upper_name>_API_KEY`.
pub fn api_key_var_from_upper(upper_name: &str) -> (var: String)
    ensures
        var@ == upper_api_key_var(upper_name@),
{
    let mut prefix = String::from_str(ENV_PREFIX);
    prefix.append("_BOT_");
    prefix.append(upper_name);
    prefix.append("_");
    let mut var = prefix;
    var.append("API_KEY");
    proof {
        reveal_strlit("HIVE_HYDRA");
        reveal_strlit("_BOT_");
        reveal_strlit("_");
        reveal_strlit("API_KEY");
        reveal_strlit("HIVE_HYDRA_BOT_");
        reveal_strlit("_API_KEY");
        assert(var@ =~= upper_api_key_var(upper_name@));
    }
    var
}

/// The name of the environment variable that overrides the API key of the
/// bot named `bot_name`.
pub fn bot_api_key_var(bot_name: &str) -> (var: String)
    ensures
        var@ == api_key_var(bot_name@),
        var@ == "HIVE_HYDRA_BOT_"@ + str_to_uppercase(bot_name@) + "_API_KEY"@,
{
    let upper = to_uppercase(bot_name);
    api_key_var_from_upper(upper.as_str())
}

/// The variable of a bot is built from its whole name, upper-cased, between
/// `HIVE_HYDRA_BOT_` and `_API_KEY`; bots whose upper-cased names differ have
/// different variables.
pub proof fn lemma_api_key_var_whole_name(name: Seq<char>, other: Seq<char>)
    ensures
        api_key_var(name) == "HIVE_HYDRA_BOT_"@ + str_to_uppercase(name) + "_API_KEY"@,
        str_to_uppercase(name) != str_to_uppercase(other) ==> api_key_var(name) != api_key_var(
            other,
        ),
{
    reveal_strlit("HIVE_HYDRA_BOT_");
    reveal_strlit("_API_KEY");
    let a = api_key_var(name);
    let b = api_key_var(other);
    let u = str_to_uppercase(name);
    let w = str_to_uppercase(other);
    if u != w && a == b {
        assert(a.len() == 15 + u.len() + 8);
        assert(b.len() == 15 + w.len() + 8);
        assert(u =~= a.subrange(15, 15 + u.len() as int));
        assert(w =~= b.subrange(15, 15 + w.len() as int));
    }
}

/// Looks `key` up among environment variables given as (name, value) pairs;
/// the last pair with that name wins.
pub fn env_lookup(env_vars: &Vec<(String, String)>, key: &String) -> (value: Option<String>)
    ensures
        value matches Some(v) ==> env_value(env_vars@, key@) == Some(v@),
        value is None ==> env_value(env_vars@, key@) is None,
{
    let mut found: Option<String> = None;
    let n = env_vars.len();
    for i in 0..n
        invariant
            n == env_vars@.len(),
            found matches Some(v) ==> env_value(env_vars@.take(i as int), key@) == Some(v@),
            found is None ==> env_value(env_vars@.take(i as int), key@) is None,
    {
        assert(env_vars@.take(i + 1).drop_last() =~= env_vars@.take(i as int));
        if env_vars[i].0 == *key {
            found = Some(env_vars[i].1.clone());
        }
    }
    assert(env_vars@.take(n as int) =~= env_vars@);
    found
}

impl Config {
    /// Replaces the API key of each bot whose variable
    /// `HIVE_HYDRA_BOT_<NAME IN UPPER CASE>_API_KEY` is among `env_vars`;
    /// nothing else changes.
    pub fn apply_bot_env_overrides(&mut self, env_vars: &Vec<(String, String)>)
        ensures
            final(self).max_concurrent_processes == old(self).max_concurrent_processes,
            final(self).queue_capacity == old(self).queue_capacity,
            final(self).base_url == old(self).base_url,
            final(self).bots@.len() == old(self).bots@.len(),
            forall|i: int|
                0 <= i < old(self).bots@.len() ==> bot_overridden(
                    #[trigger] old(self).bots@[i],
                    final(self).bots@[i],
                    env_vars@,
                ),
    {
        let n = self.bots.len();
        for i in 0..n
            invariant
                n == self.bots@.len(),
                self.max_concurrent_processes == old(self).max_concurrent_processes,
                self.queue_capacity == old(self).queue_capacity,
                self.base_url == old(self).base_url,
                self.bots@.len() == old(self).bots@.len(),
                forall|j: int|
                    0 <= j < i ==> bot_overridden(
                        #[trigger] old(self).bots@[j],
                        self.bots@[j],
                        env_vars@,
                    ),
                forall|j: int| i <= j < n ==> #[trigger] self.bots@[j] == old(self).bots@[j],
        {
            let var = bot_api_key_var(self.bots[i].name.as_str());
            match env_lookup(env_vars, &var) {
                Some(value) => {
                    self.bots[i].api_key = value;
                },
                None => {},
            }
        }
    }
}

/// Applying the overrides a second time changes nothing: a bot's variable
/// depends on its name alone, which the overrides keep.
pub proof fn lemma_overrides_idempotent(
    bot_name: Seq<char>,
    api_key: Seq<char>,
    env: Seq<(String, String)>,
)
    ensures
        overridden_api_key(bot_name, overridden_api_key(bot_name, api_key, env), env)
            == overridden_api_key(bot_name, api_key, env),
{
}

/// A bot keeps the key of its settings when its variable is absent, and
/// takes the variable's value when it is present.
pub proof fn lemma_override_source(
    bot_name: Seq<char>,
    api_key: Seq<char>,
    env: Seq<(String, String)>,
)
    ensures
        env_value(env, api_key_var(bot_name)) is None ==> overridden_api_key(bot_name, api_key, env)
            == api_key,
        env_value(env, api_key_var(bot_name)) matches Some(v) ==> overridden_api_key(
            bot_name,
            api_key,
            env,
        ) == v,
{
}

} // verus!
