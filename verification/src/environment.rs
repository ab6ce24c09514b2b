use vstd::prelude::*;

use crate::id_map::{lemma_table_of_extend, lemma_table_of_holds_last, lemma_table_of_holds_value, table_of};
use crate::sorted_map::SortedMap;
use crate::text::{combine_output, combined_text, trim_text, trims_to, ProcessOutput};

verus! {

/// Why the environment report could not be made.
pub enum EnvironmentError {
    /// `git` could not be started; the text says why.
    GitCommand(String),
}

/// What the server reports about where it runs: the commit it was built
/// from and its environment variables, ordered by name.
pub struct Environment {
    git_hash: String,
    env_vars: SortedMap,
}

impl Environment {
    /// The commit hash, as `git rev-parse HEAD` printed it.
    pub closed spec fn spec_git_hash(&self) -> Seq<char> {
        self.git_hash@
    }

    /// The environment variables.
    pub closed spec fn spec_env_vars(&self) -> Map<Seq<char>, Seq<char>> {
        self.env_vars@
    }

    /// The commit hash, as `git rev-parse HEAD` printed it.
    pub fn git_hash(&self) -> (r: &String)
        ensures
            r@ == self.spec_git_hash(),
    {
        &self.git_hash
    }

    /// The environment variables.
    pub fn env_vars(&self) -> (r: &SortedMap)
        ensures
            r@ == self.spec_env_vars(),
    {
        &self.env_vars
    }
}

/// The texts of a list of name and value pairs.
pub open spec fn pair_texts(vars: Seq<(String, String)>) -> Seq<(Seq<char>, Seq<char>)> {
    vars.map_values(|p: (String, String)| (p.0@, p.1@))
}

/// The table that the variables make when each is put in turn, a later one
/// replacing an earlier one of the same name.
pub open spec fn env_table(vars: Seq<(Seq<char>, Seq<char>)>) -> Map<Seq<char>, Seq<char>> {
    table_of(vars)
}

/// The table has an entry for a name exactly when some variable has that
/// name, and under the name of a variable that no later variable repeats it
/// holds that variable's value, unchanged.
pub proof fn lemma_env_table_holds_given_values(vars: Seq<(Seq<char>, Seq<char>)>, name: Seq<char>)
    ensures
        env_table(vars).contains_key(name) <==> exists|i: int|
            0 <= i < vars.len() && #[trigger] vars[i].0 == name,
        forall|i: int|
            0 <= i < vars.len() && #[trigger] vars[i].0 == name && (forall|j: int|
                i < j < vars.len() ==> #[trigger] vars[j].0 != name) ==> env_table(vars)[name] == vars[i].1,
{
    lemma_table_of_holds_last(vars, name);
    assert forall|i: int|
        0 <= i < vars.len() && #[trigger] vars[i].0 == name && (forall|j: int|
            i < j < vars.len() ==> #[trigger] vars[j].0 != name) implies env_table(vars)[name] == vars[i].1 by {
        lemma_table_of_holds_value(vars, i);
    }
}

/// Puts the environment variables, given as name and value pairs, into a
/// table ordered by name.
pub fn get_env_vars(vars: &Vec<(String, String)>) -> (r: SortedMap)
    ensures
        r@ == env_table(pair_texts(vars@)),
{
    let mut map = SortedMap::new();
    let mut i: usize = 0;
    while i < vars.len()
        invariant
            i <= vars.len(),
            map@ == env_table(pair_texts(vars@).take(i as int)),
        decreases vars.len() - i,
    {
        let name = vars[i].0.clone();
        let value = vars[i].1.clone();
        map.insert(name, value);
        proof {
            lemma_table_of_extend(pair_texts(vars@), i as int);
        }
        i = i + 1;
    }
    assert(pair_texts(vars@).take(vars.len() as int) =~= pair_texts(vars@));
    map
}

/// Makes the commit hash out of what `git rev-parse HEAD` did: its combined
/// output without leading and trailing white space, or, where `git` could
/// not be started, the error.
pub fn get_git_hash(outcome: &Result<ProcessOutput, String>) -> (r: Result<String, EnvironmentError>)
    ensures
        match outcome {
            Ok(output) => r matches Ok(hash) && trims_to(
                combined_text(output.stderr@, output.stdout@),
                hash@,
            ),
            Err(reason) => r matches Err(EnvironmentError::GitCommand(e)) && e@ == reason@,
        },
{
    match outcome {
        Ok(output) => {
            let combined = combine_output(output.stderr.as_slice(), output.stdout.as_slice());
            let trimmed = trim_text(combined.as_str());
            Ok(trimmed.to_owned())
        },
        Err(reason) => Err(EnvironmentError::GitCommand(reason.clone())),
    }
}

/// Makes the environment report from what `git rev-parse HEAD` did and from
/// the process's environment variables.
pub fn get_environment(git_outcome: &Result<ProcessOutput, String>, vars: &Vec<(String, String)>) -> (r:
    Result<Environment, EnvironmentError>)
    ensures
        match git_outcome {
            Ok(output) => r matches Ok(env) && trims_to(
                combined_text(output.stderr@, output.stdout@),
                env.spec_git_hash(),
            ) && env.spec_env_vars() == env_table(pair_texts(vars@)),
            Err(reason) => r matches Err(EnvironmentError::GitCommand(e)) && e@ == reason@,
        },
{
    let git_hash = match get_git_hash(git_outcome) {
        Ok(hash) => hash,
        Err(e) => {
            return Err(e);
        },
    };
    Ok(Environment { git_hash, env_vars: get_env_vars(vars) })
}

} // verus!
