use vstd::prelude::*;

use crate::config::{CommandInfo, CommandInfoView};
use crate::id_map::{lemma_table_of_extend, lemma_table_of_holds_last, table_of, IdMap};
use crate::text::{lemma_combined_text_is_both_whole_streams, combine_output, combined_text, lossy_text, prefixed, ProcessOutput};
use vstd::utf8::{decode_utf8, valid_utf8};

verus! {

/// The identifier and content of each command, in order.
pub open spec fn command_entries(commands: Seq<CommandInfoView>) -> Seq<(Seq<char>, CommandInfoView)> {
    commands.map_values(|c: CommandInfoView| (c.id, c))
}

/// The table that building the command map yields: each command put under
/// its identifier, in order, a later command replacing an earlier one with
/// the same identifier.
pub open spec fn command_table(commands: Seq<CommandInfoView>) -> Map<Seq<char>, CommandInfoView> {
    table_of(command_entries(commands))
}

/// Looking up an identifier in the command table finds a command exactly
/// when some configured command has that identifier, and what it finds is
/// the last configured command with that identifier.
pub proof fn lemma_command_table_holds_last(commands: Seq<CommandInfoView>, id: Seq<char>)
    ensures
        command_table(commands).contains_key(id) <==> exists|i: int|
            0 <= i < commands.len() && #[trigger] commands[i].id == id,
        command_table(commands).contains_key(id) ==> exists|i: int|
            0 <= i < commands.len() && #[trigger] commands[i].id == id && command_table(commands)[id]
                == commands[i] && forall|j: int| i < j < commands.len() ==> #[trigger] commands[j].id != id,
{
    let entries = command_entries(commands);
    lemma_table_of_holds_last(entries, id);
    assert(forall|i: int| 0 <= i < commands.len() ==> #[trigger] entries[i] == (commands[i].id, commands[i]));
    if command_table(commands).contains_key(id) {
        let i = choose|i: int|
            0 <= i < entries.len() && #[trigger] entries[i].0 == id && table_of(entries)[id] == entries[i].1
                && forall|j: int| i < j < entries.len() ==> #[trigger] entries[j].0 != id;
        assert(commands[i].id == id);
        assert forall|j: int| i < j < commands.len() implies #[trigger] commands[j].id != id by {
            assert(entries[j].0 != id);
        }
    }
    if exists|i: int| 0 <= i < commands.len() && #[trigger] commands[i].id == id {
        let i = choose|i: int| 0 <= i < commands.len() && #[trigger] commands[i].id == id;
        assert(entries[i].0 == id);
    }
}

/// Builds the table from command identifiers to commands.
pub fn build_command_map(commands: &Vec<CommandInfo>) -> (r: IdMap<CommandInfo>)
    ensures
        r@.map_values(|c: CommandInfo| c@) == command_table(commands.deep_view()),
{
    let ghost entries = command_entries(commands.deep_view());
    let mut map: IdMap<CommandInfo> = IdMap::new();
    let mut i: usize = 0;
    while i < commands.len()
        invariant
            i <= commands.len(),
            entries == command_entries(commands.deep_view()),
            map@.map_values(|c: CommandInfo| c@) == table_of(entries.take(i as int)),
        decreases commands.len() - i,
    {
        let info = &commands[i];
        let ghost before = map@;
        map.insert(info.id().clone(), info.clone());
        proof {
            lemma_table_of_extend(entries, i as int);
            assert(entries[i as int] == (info@.id, info@));
            assert(map@.map_values(|c: CommandInfo| c@) =~= before.map_values(|c: CommandInfo| c@).insert(info@.id, info@));
        }
        i = i + 1;
    }
    assert(entries.take(commands.len() as int) =~= entries);
    map
}

/// A command line as the server shows it: the program, then each argument
/// after a space.
pub open spec fn command_line(command: Seq<char>, args: Seq<Seq<char>>) -> Seq<char>
    decreases args.len(),
{
    if args.len() == 0 {
        command
    } else {
        command_line(command, args.drop_last()) + seq![' '] + args.last()
    }
}

/// The pieces of a text between its spaces, as `str::split(' ')` gives
/// them: one piece more than there are spaces, empty pieces included.
pub open spec fn split_on_space(s: Seq<char>) -> Seq<Seq<char>>
    decreases s.len(),
{
    if s.len() == 0 {
        seq![Seq::empty()]
    } else if s.last() == ' ' {
        split_on_space(s.drop_last()).push(Seq::empty())
    } else {
        let pieces = split_on_space(s.drop_last());
        pieces.update(pieces.len() - 1, pieces.last().push(s.last()))
    }
}

/// The text holds no space.
pub open spec fn has_no_space(s: Seq<char>) -> bool {
    forall|i: int| 0 <= i < s.len() ==> s[i] != ' '
}

/// The number of characters that the arguments add to a command line: each
/// argument and the space before it.
pub open spec fn args_length(args: Seq<Seq<char>>) -> nat
    decreases args.len(),
{
    if args.len() == 0 {
        0
    } else {
        args_length(args.drop_last()) + 1 + args.last().len()
    }
}

proof fn lemma_split_nonempty(s: Seq<char>)
    ensures
        split_on_space(s).len() >= 1,
    decreases s.len(),
{
    if s.len() > 0 {
        lemma_split_nonempty(s.drop_last());
    }
}

/// Appending text without spaces extends the last piece.
proof fn lemma_split_extend(p: Seq<char>, t: Seq<char>)
    requires
        has_no_space(t),
    ensures
        split_on_space(p + t) == split_on_space(p).update(
            split_on_space(p).len() - 1,
            split_on_space(p).last() + t,
        ),
    decreases t.len(),
{
    lemma_split_nonempty(p);
    let pieces = split_on_space(p);
    if t.len() == 0 {
        assert(p + t =~= p);
        assert(pieces.last() + t =~= pieces.last());
        assert(pieces.update(pieces.len() - 1, pieces.last()) =~= pieces);
    } else {
        let u = t.drop_last();
        assert(has_no_space(u));
        lemma_split_extend(p, u);
        assert((p + t).drop_last() =~= p + u);
        assert((p + t).last() == t.last());
        let before = split_on_space(p + u);
        lemma_split_nonempty(p + u);
        assert(before.last() =~= pieces.last() + u);
        assert(before.last().push(t.last()) =~= pieces.last() + t);
        assert(before.update(before.len() - 1, before.last().push(t.last())) =~= pieces.update(
            pieces.len() - 1,
            pieces.last() + t,
        ));
    }
}

/// Where neither the program nor any argument holds a space, splitting the
/// command line at its spaces gives back the program and then the
/// arguments, and the line is as long as the program and the arguments with
/// one space before each argument.
pub proof fn lemma_command_line_splits_back(command: Seq<char>, args: Seq<Seq<char>>)
    requires
        has_no_space(command),
        forall|i: int| 0 <= i < args.len() ==> has_no_space(#[trigger] args[i]),
    ensures
        split_on_space(command_line(command, args)) == seq![command] + args,
        command_line(command, args).len() == command.len() + args_length(args),
    decreases args.len(),
{
    if args.len() == 0 {
        lemma_split_extend(Seq::empty(), command);
        assert(Seq::<char>::empty() + command =~= command);
        assert(split_on_space(Seq::<char>::empty()) =~= seq![Seq::<char>::empty()]);
        assert(seq![command] + args =~= seq![command]);
    } else {
        let rest = args.drop_last();
        assert forall|i: int| 0 <= i < rest.len() implies has_no_space(#[trigger] rest[i]) by {
            assert(rest[i] == args[i]);
        }
        lemma_command_line_splits_back(command, rest);
        let line = command_line(command, rest);
        let spaced = line + seq![' '];
        assert(spaced.drop_last() =~= line);
        assert(split_on_space(spaced) == split_on_space(line).push(Seq::empty()));
        assert(has_no_space(args.last()));
        lemma_split_extend(spaced, args.last());
        let pieces = split_on_space(spaced);
        assert(Seq::<char>::empty() + args.last() =~= args.last());
        assert(pieces.update(pieces.len() - 1, pieces.last() + args.last()) =~= (seq![command] + rest).push(
            args.last(),
        ));
        assert((seq![command] + rest).push(args.last()) =~= seq![command] + args);
    }
}

proof fn lemma_args_length_prefix(args: Seq<Seq<char>>, j: int)
    requires
        0 <= j <= args.len(),
    ensures
        args_length(args.take(j)) <= args_length(args),
    decreases args.len(),
{
    if j < args.len() {
        let rest = args.drop_last();
        assert(args.take(j) =~= rest.take(j));
        lemma_args_length_prefix(rest, j);
    } else {
        assert(args.take(j) =~= args);
    }
}

/// The command line is the program, followed, for each argument in order,
/// by one space and that argument, whatever the program and the arguments
/// hold: it is as long as the program plus one and the argument's length
/// for each argument, it begins with the program, and the `i`-th argument
/// stands, after its space, right where the earlier arguments end.
pub proof fn lemma_command_line_layout(command: Seq<char>, args: Seq<Seq<char>>)
    ensures
        command_line(command, args).len() == command.len() + args_length(args),
        command_line(command, args).subrange(0, command.len() as int) == command,
        forall|i: int|
            #![trigger args[i]]
            0 <= i < args.len() ==> command_line(command, args).subrange(
                (command.len() + args_length(args.take(i))) as int,
                (command.len() + args_length(args.take(i + 1))) as int,
            ) == seq![' '] + args[i],
    decreases args.len(),
{
    let line = command_line(command, args);
    if args.len() == 0 {
        assert(line.subrange(0, command.len() as int) =~= command);
    } else {
        let n = args.len() - 1;
        let rest = args.drop_last();
        lemma_command_line_layout(command, rest);
        let prev = command_line(command, rest);
        assert(line == prev + seq![' '] + args.last());
        assert(line.subrange(0, command.len() as int) =~= prev.subrange(0, command.len() as int));
        assert forall|i: int| #![trigger args[i]] 0 <= i < args.len() implies line.subrange(
            (command.len() + args_length(args.take(i))) as int,
            (command.len() + args_length(args.take(i + 1))) as int,
        ) == seq![' '] + args[i] by {
            if i < n {
                assert(args.take(i) =~= rest.take(i));
                assert(args.take(i + 1) =~= rest.take(i + 1));
                assert(rest[i] == args[i]);
                lemma_args_length_prefix(rest, i + 1);
                lemma_args_length_prefix(rest.take(i + 1), i);
                assert(rest.take(i + 1).take(i) =~= rest.take(i));
                assert(line.subrange(
                    (command.len() + args_length(args.take(i))) as int,
                    (command.len() + args_length(args.take(i + 1))) as int,
                ) =~= prev.subrange(
                    (command.len() + args_length(rest.take(i))) as int,
                    (command.len() + args_length(rest.take(i + 1))) as int,
                ));
            } else {
                assert(args.take(i) =~= rest);
                assert(args.take(i + 1) =~= args);
                assert(args.take(i + 1).drop_last() =~= rest);
                assert(line.subrange(
                    (command.len() + args_length(args.take(i))) as int,
                    (command.len() + args_length(args.take(i + 1))) as int,
                ) =~= seq![' '] + args[i]);
            }
        }
    }
}

proof fn lemma_command_line_length(command: Seq<char>, args: Seq<Seq<char>>)
    ensures
        command_line(command, args).len() == command.len() + args_length(args),
{
    lemma_command_line_layout(command, args);
}

/// Writes out the command line of a command.
pub fn build_command_line_string(command_info: &CommandInfo) -> (r: String)
    ensures
        r@ == command_line(command_info@.command, command_info@.args),
        r@.len() == command_info@.command.len() + args_length(command_info@.args),
{
    let mut line = command_info.command().clone();
    let args = command_info.args();
    let mut i: usize = 0;
    while i < args.len()
        invariant
            i <= args.len(),
            args.deep_view() == command_info@.args,
            line@ == command_line(command_info@.command, command_info@.args.take(i as int)),
        decreases args.len() - i,
    {
        let ghost before = line@;
        line.append(" ");
        line.append(args[i].as_str());
        proof {
            reveal_strlit(" ");
            let prefix = command_info@.args.take(i + 1);
            assert(prefix.drop_last() =~= command_info@.args.take(i as int));
            assert(prefix.last() == args[i as int]@);
            assert(line@ =~= before + seq![' '] + args[i as int]@);
        }
        i = i + 1;
    }
    assert(command_info@.args.take(args.len() as int) =~= command_info@.args);
    proof {
        lemma_command_line_length(command_info@.command, command_info@.args);
    }
    line
}

/// The text shown for a run of a command: its combined output, or the
/// reason it could not be run.
pub open spec fn command_output_text(outcome: Result<ProcessOutput, String>) -> Seq<char> {
    match outcome {
        Ok(output) => combined_text(output.stderr@, output.stdout@),
        Err(reason) => "command error: "@ + reason@,
    }
}

/// A run that went shows all of the error stream, decoded leniently, then
/// all of the output stream; a run that could not start shows the reason
/// after `command error: `.
pub proof fn lemma_command_output_shows_whole_streams(outcome: Result<ProcessOutput, String>)
    ensures
        outcome matches Ok(output) ==> command_output_text(outcome) == lossy_text(output.stderr@)
            + lossy_text(output.stdout@),
        outcome matches Err(reason) ==> command_output_text(outcome) == "command error: "@ + reason@,
{
    if let Ok(output) = outcome {
        lemma_combined_text_is_both_whole_streams(output.stderr@, output.stdout@);
    }
}

/// Turns the outcome of running a command into the text that is shown.
pub fn run_command_output(outcome: &Result<ProcessOutput, String>) -> (r: String)
    ensures
        r@ == command_output_text(*outcome),
        outcome matches Ok(output) ==> r@ == lossy_text(output.stderr@) + lossy_text(output.stdout@),
        outcome matches Ok(output) ==> (valid_utf8(output.stderr@) && valid_utf8(output.stdout@) ==> r@
            == decode_utf8(output.stderr@) + decode_utf8(output.stdout@)),
{
    match outcome {
        Ok(output) => combine_output(output.stderr.as_slice(), output.stdout.as_slice()),
        Err(reason) => prefixed("command error: ", reason.as_str()),
    }
}

/// What answering an API request for a command calls for.
pub enum CommandApiPlan {
    /// No command has the requested identifier.
    NotFound,
    /// Run the command; the answer will show this command line.
    Run { command_info: CommandInfo, command_line: String },
}

/// Decides how to answer an API request for the command found (or not)
/// under the requested identifier.
pub fn build_command_api_response(command_info_option: Option<&CommandInfo>) -> (r: CommandApiPlan)
    ensures
        match command_info_option {
            None => r is NotFound,
            Some(info) => match r {
                CommandApiPlan::Run { command_info, command_line: line } => command_info@ == info@
                    && line@ == command_line(info@.command, info@.args),
                CommandApiPlan::NotFound => false,
            },
        },
{
    match command_info_option {
        None => CommandApiPlan::NotFound,
        Some(info) => {
            let command_line = build_command_line_string(info);
            CommandApiPlan::Run { command_info: info.clone(), command_line }
        },
    }
}

/// The JSON document answering an API request for a command.
pub struct CommandApiResponse {
    pub now: String,
    pub command_line: String,
    pub output: String,
}

/// Assembles the answer once the command has run.
pub fn command_api_response(
    now: String,
    command_line: String,
    outcome: &Result<ProcessOutput, String>,
) -> (r: CommandApiResponse)
    ensures
        r.now@ == now@,
        r.command_line@ == command_line@,
        r.output@ == command_output_text(*outcome),
        outcome matches Ok(output) ==> r.output@ == lossy_text(output.stderr@) + lossy_text(
            output.stdout@,
        ),
        outcome matches Ok(output) ==> (valid_utf8(output.stderr@) && valid_utf8(output.stdout@)
            ==> r.output@ == decode_utf8(output.stderr@) + decode_utf8(output.stdout@)),
{
    CommandApiResponse { now, command_line, output: run_command_output(outcome) }
}

} // verus!
