//! The command line.

use crate::text::{
    begins, blank, decimal, decimal_reads_back, digit, float_text, i64_value, is_blank,
    is_float_text, join, joined, numerals_are_trimmed, parse_i64, parse_u64, parse_usize, quote,
    quoted, same, split, split_on, strip_prefix, trim, trimmed, unsigned_value, views,
};
use vstd::prelude::*;

verus! {

/// How many memories a recall shows where no limit is given.
pub const DEFAULT_RECALL_LIMIT: usize = 5;

/// A command line, parsed. Scores and attributions are kept as the texts of
/// doubles.
#[derive(Debug, PartialEq, Eq)]
pub enum Command {
    /// Store one memory, after `prev_id` in a sequence where that is given.
    Ingest { text: String, prev_id: Option<u64>, seq_pos: Option<i64> },
    /// Recall memories, or walk a sequence from `follow_seq`.
    Recall { query: String, limit: usize, follow_seq: Option<u64>, depth: usize, dir: String },
    /// Reward a recall.
    Reward { score: String, attributions: Vec<String>, recall_id: Option<u64> },
    /// Run one consolidation cycle.
    Consolidate,
    /// Create the vector index.
    Setup,
    /// Show aggregate counts.
    Stats,
    /// Show counts and whether the providers answer.
    Status,
    /// Train the reranker from the feedback log.
    TrainReranker,
    /// Serve the single-tool server over stdio.
    McpServer,
    /// Serve the tool set over stdio.
    McpTools,
    /// Run the daemon.
    Serve,
    /// Show the commands of an agent.
    Help,
    /// Show all commands.
    HelpAll,
    /// The line does not parse.
    Invalid { message: String },
}

/// A command by value.
pub enum CommandView {
    Ingest { text: Seq<char>, prev_id: Option<u64>, seq_pos: Option<i64> },
    Recall {
        query: Seq<char>,
        limit: usize,
        follow_seq: Option<u64>,
        depth: usize,
        dir: Seq<char>,
    },
    Reward { score: Seq<char>, attributions: Seq<Seq<char>>, recall_id: Option<u64> },
    Consolidate,
    Setup,
    Stats,
    Status,
    TrainReranker,
    McpServer,
    McpTools,
    Serve,
    Help,
    HelpAll,
    Invalid { message: Seq<char> },
}

impl Command {
    pub open spec fn view(&self) -> CommandView {
        match self {
            Command::Ingest { text, prev_id, seq_pos } => CommandView::Ingest {
                text: text@,
                prev_id: *prev_id,
                seq_pos: *seq_pos,
            },
            Command::Recall { query, limit, follow_seq, depth, dir } => CommandView::Recall {
                query: query@,
                limit: *limit,
                follow_seq: *follow_seq,
                depth: *depth,
                dir: dir@,
            },
            Command::Reward { score, attributions, recall_id } => CommandView::Reward {
                score: score@,
                attributions: views(attributions@),
                recall_id: *recall_id,
            },
            Command::Consolidate => CommandView::Consolidate,
            Command::Setup => CommandView::Setup,
            Command::Stats => CommandView::Stats,
            Command::Status => CommandView::Status,
            Command::TrainReranker => CommandView::TrainReranker,
            Command::McpServer => CommandView::McpServer,
            Command::McpTools => CommandView::McpTools,
            Command::Serve => CommandView::Serve,
            Command::Help => CommandView::Help,
            Command::HelpAll => CommandView::HelpAll,
            Command::Invalid { message } => CommandView::Invalid { message: message@ },
        }
    }
}

/// A use of the option `name` at `i`: its value, if there is one, and the place
/// of the word after it. The value is the next word, or what follows `=`.
pub open spec fn option_at(words: Seq<Seq<char>>, i: int, name: Seq<char>) -> Option<
    (Option<Seq<char>>, int),
> {
    if words[i] == name {
        Some(
            (
                if i + 1 < words.len() {
                    Some(words[i + 1])
                } else {
                    None
                },
                i + 2,
            ),
        )
    } else if begins(words[i], name + "="@) {
        Some((Some(words[i].skip(name.len() as int + 1)), i + 1))
    } else {
        None
    }
}

/// The unsigned number that an option's value writes.
pub open spec fn number_in(value: Option<Seq<char>>, max: nat) -> Option<nat> {
    match value {
        Some(v) => unsigned_value(v, max),
        None => None,
    }
}

fn option_value<'a>(words: &'a Vec<String>, i: usize, name: &str, name_with_sign: &str) -> (r:
    Option<(Option<&'a str>, usize)>)
    requires
        i < words@.len(),
        name_with_sign@ == name@ + "="@,
    ensures
        match option_at(views(words@), i as int, name@) {
            Some((value, next)) => r matches Some((v, n)) && crate::json::text_view(v) == value
                && (value is Some ==> n == next && n <= words@.len()),
            None => r is None,
        },
{
    let ghost all = views(words@);
    proof {
        reveal_strlit("=");
        assert((name@ + "="@).len() == name@.len() + 1);
    }
    let word = words[i].as_str();
    let last: usize = words.len() - 1;
    assert(all[i as int] == word@);
    if same(word, name) {
        if i < last {
            assert(all[i + 1] == words@[i + 1]@);
            Some((Some(words[i + 1].as_str()), i + 2))
        } else {
            Some((None, i + 1))
        }
    } else {
        match strip_prefix(word, name_with_sign) {
            Some(rest) => Some((Some(rest), i + 1)),
            None => None,
        }
    }
}

/// What the options of `ingest` say so far.
pub struct IngestArgs {
    pub prev_id: Option<u64>,
    pub seq_pos: Option<i64>,
    pub parts: Seq<Seq<char>>,
}

pub open spec fn seq_message() -> Seq<char> {
    "--seq needs a number: engram ingest <text...> [--seq <prev_id>]"@
}

pub open spec fn seq_pos_message() -> Seq<char> {
    "--seq-pos needs a number: engram ingest <text...> [--seq-pos N]"@
}

/// Reads the words of `ingest` from `i` on: options change the settings, other
/// words are text. The error is the message of the first option that is wrong.
pub open spec fn scan_ingest(words: Seq<Seq<char>>, i: int, args: IngestArgs) -> Result<
    IngestArgs,
    Seq<char>,
>
    decreases words.len() - i,
{
    if i < 0 || i >= words.len() {
        Ok(args)
    } else if let Some((value, next)) = option_at(words, i, "--seq"@) {
        match number_in(value, u64::MAX as nat) {
            Some(n) => scan_ingest(words, next, IngestArgs { prev_id: Some(n as u64), ..args }),
            None => Err(seq_message()),
        }
    } else if let Some((value, next)) = option_at(words, i, "--seq-pos"@) {
        match value {
            Some(v) => match i64_value(v) {
                Some(n) => scan_ingest(words, next, IngestArgs { seq_pos: Some(n as i64), ..args }),
                None => Err(seq_pos_message()),
            },
            None => Err(seq_pos_message()),
        }
    } else {
        scan_ingest(words, i + 1, IngestArgs { parts: args.parts.push(words[i]), ..args })
    }
}

/// The command that the words after `ingest` make.
pub open spec fn ingest_command(words: Seq<Seq<char>>) -> CommandView {
    match scan_ingest(
        words,
        0,
        IngestArgs { prev_id: None, seq_pos: None, parts: Seq::empty() },
    ) {
        Ok(args) => if blank(joined(args.parts, " "@)) {
            CommandView::Invalid { message: "ingest needs text: engram ingest <text...>"@ }
        } else {
            CommandView::Ingest {
                text: joined(args.parts, " "@),
                prev_id: args.prev_id,
                seq_pos: args.seq_pos,
            }
        },
        Err(message) => CommandView::Invalid { message },
    }
}

fn invalid(message: &str) -> (r: Command)
    ensures
        r@ == (CommandView::Invalid { message: message@ }),
{
    Command::Invalid { message: message.to_owned() }
}

/// Parses the words after `ingest`.
pub fn parse_ingest(rest: &Vec<String>) -> (r: Command)
    ensures
        r@ == ingest_command(views(rest@)),
{
    let ghost words = views(rest@);
    let ghost start = IngestArgs { prev_id: None, seq_pos: None, parts: Seq::empty() };
    let mut prev_id: Option<u64> = None;
    let mut seq_pos: Option<i64> = None;
    let mut parts: Vec<String> = Vec::new();
    let mut i: usize = 0;
    proof {
        reveal_strlit("=");
        reveal_strlit("--seq");
        reveal_strlit("--seq=");
        reveal_strlit("--seq-pos");
        reveal_strlit("--seq-pos=");
        assert("--seq="@ =~= "--seq"@ + "="@);
        assert("--seq-pos="@ =~= "--seq-pos"@ + "="@);
        assert(views(parts@) =~= Seq::empty());
    }
    while i < rest.len()
        invariant
            i <= rest@.len(),
            words == views(rest@),
            "--seq="@ == "--seq"@ + "="@,
            "--seq-pos="@ == "--seq-pos"@ + "="@,
            scan_ingest(words, 0, start) == scan_ingest(
                words,
                i as int,
                IngestArgs { prev_id, seq_pos, parts: views(parts@) },
            ),
            start == (IngestArgs { prev_id: None, seq_pos: None, parts: Seq::empty() }),
        decreases rest@.len() - i,
    {
        if let Some((value, next)) = option_value(rest, i, "--seq", "--seq=") {
            let number: Option<u64> = match value {
                Some(v) => parse_u64(v),
                None => None,
            };
            match number {
                Some(n) => {
                    prev_id = Some(n);
                    i = next;
                },
                None => {
                    return invalid(
                        "--seq needs a number: engram ingest <text...> [--seq <prev_id>]",
                    );
                },
            }
        } else if let Some((value, next)) = option_value(rest, i, "--seq-pos", "--seq-pos=") {
            let number: Option<i64> = match value {
                Some(v) => parse_i64(v),
                None => None,
            };
            match number {
                Some(n) => {
                    seq_pos = Some(n);
                    i = next;
                },
                None => {
                    return invalid(
                        "--seq-pos needs a number: engram ingest <text...> [--seq-pos N]",
                    );
                },
            }
        } else {
            let ghost before = parts@;
            parts.push(rest[i].clone());
            assert(views(parts@) =~= views(before).push(words[i as int]));
            i += 1;
        }
    }
    let text = join(&parts, " ");
    if is_blank(text.as_str()) {
        invalid("ingest needs text: engram ingest <text...>")
    } else {
        Command::Ingest { text, prev_id, seq_pos }
    }
}

/// What the options of `recall` say so far.
pub struct RecallArgs {
    pub limit: usize,
    pub follow_seq: Option<u64>,
    pub depth: usize,
    pub dir: Seq<char>,
    pub parts: Seq<Seq<char>>,
}

/// A direction of a walk along a sequence.
pub open spec fn is_direction(s: Seq<char>) -> bool {
    s == "up"@ || s == "down"@ || s == "both"@
}

/// Whether `s` names a direction.
pub fn names_direction(s: &str) -> (r: bool)
    ensures
        r == is_direction(s@),
{
    same(s, "up") || same(s, "down") || same(s, "both")
}

/// Reads the words of `recall` from `i` on: options change the settings, other
/// words are the query. The error is the message of the first option that is
/// wrong.
pub open spec fn scan_recall(words: Seq<Seq<char>>, i: int, args: RecallArgs) -> Result<
    RecallArgs,
    Seq<char>,
>
    decreases words.len() - i,
{
    if i < 0 || i >= words.len() {
        Ok(args)
    } else if let Some((value, next)) = option_at(words, i, "--limit"@) {
        match number_in(value, usize::MAX as nat) {
            Some(n) => scan_recall(words, next, RecallArgs { limit: n as usize, ..args }),
            None => Err("--limit needs a number: engram recall <query...> [--limit N]"@),
        }
    } else if let Some((value, next)) = option_at(words, i, "--follow-seq"@) {
        match number_in(value, u64::MAX as nat) {
            Some(n) => scan_recall(words, next, RecallArgs { follow_seq: Some(n as u64), ..args }),
            None => Err("--follow-seq needs a number: engram recall <query...> [--follow-seq <id>]"@),
        }
    } else if let Some((value, next)) = option_at(words, i, "--depth"@) {
        match number_in(value, usize::MAX as nat) {
            Some(n) => scan_recall(words, next, RecallArgs { depth: n as usize, ..args }),
            None => Err("--depth needs a number: engram recall <query...> [--depth N]"@),
        }
    } else if let Some((value, next)) = option_at(words, i, "--dir"@) {
        match value {
            Some(v) => if is_direction(v) {
                scan_recall(words, next, RecallArgs { dir: v, ..args })
            } else {
                Err("--dir must be up|down|both"@)
            },
            None => Err("--dir must be up|down|both"@),
        }
    } else {
        scan_recall(words, i + 1, RecallArgs { parts: args.parts.push(words[i]), ..args })
    }
}

/// The settings of a recall without options: five memories, ten steps down.
pub open spec fn plain_recall() -> RecallArgs {
    RecallArgs {
        limit: DEFAULT_RECALL_LIMIT,
        follow_seq: None,
        depth: 10,
        dir: "down"@,
        parts: Seq::empty(),
    }
}

/// The command that the words after `recall` make. Only a walk needs no query.
pub open spec fn recall_command(words: Seq<Seq<char>>) -> CommandView {
    match scan_recall(words, 0, plain_recall()) {
        Ok(args) => if blank(joined(args.parts, " "@)) && args.follow_seq is None {
            CommandView::Invalid {
                message: "recall needs a query: engram recall <query...> [--limit N]"@,
            }
        } else {
            CommandView::Recall {
                query: joined(args.parts, " "@),
                limit: args.limit,
                follow_seq: args.follow_seq,
                depth: args.depth,
                dir: args.dir,
            }
        },
        Err(message) => CommandView::Invalid { message },
    }
}

/// Parses the words after `recall`.
pub fn parse_recall(rest: &Vec<String>) -> (r: Command)
    ensures
        r@ == recall_command(views(rest@)),
{
    let ghost words = views(rest@);
    let mut limit: usize = DEFAULT_RECALL_LIMIT;
    let mut follow_seq: Option<u64> = None;
    let mut depth: usize = 10;
    let mut dir = "down".to_owned();
    let mut parts: Vec<String> = Vec::new();
    let mut i: usize = 0;
    proof {
        reveal_strlit("=");
        reveal_strlit("--limit");
        reveal_strlit("--limit=");
        reveal_strlit("--follow-seq");
        reveal_strlit("--follow-seq=");
        reveal_strlit("--depth");
        reveal_strlit("--depth=");
        reveal_strlit("--dir");
        reveal_strlit("--dir=");
        assert("--limit="@ =~= "--limit"@ + "="@);
        assert("--follow-seq="@ =~= "--follow-seq"@ + "="@);
        assert("--depth="@ =~= "--depth"@ + "="@);
        assert("--dir="@ =~= "--dir"@ + "="@);
        assert(views(parts@) =~= Seq::empty());
    }
    while i < rest.len()
        invariant
            i <= rest@.len(),
            words == views(rest@),
            "--limit="@ == "--limit"@ + "="@,
            "--follow-seq="@ == "--follow-seq"@ + "="@,
            "--depth="@ == "--depth"@ + "="@,
            "--dir="@ == "--dir"@ + "="@,
            scan_recall(words, 0, plain_recall()) == scan_recall(
                words,
                i as int,
                RecallArgs { limit, follow_seq, depth, dir: dir@, parts: views(parts@) },
            ),
        decreases rest@.len() - i,
    {
        if let Some((value, next)) = option_value(rest, i, "--limit", "--limit=") {
            let number: Option<usize> = match value {
                Some(v) => parse_usize(v),
                None => None,
            };
            match number {
                Some(n) => {
                    limit = n;
                    i = next;
                },
                None => {
                    return invalid(
                        "--limit needs a number: engram recall <query...> [--limit N]",
                    );
                },
            }
        } else if let Some((value, next)) = option_value(
            rest,
            i,
            "--follow-seq",
            "--follow-seq=",
        ) {
            let number: Option<u64> = match value {
                Some(v) => parse_u64(v),
                None => None,
            };
            match number {
                Some(n) => {
                    follow_seq = Some(n);
                    i = next;
                },
                None => {
                    return invalid(
                        "--follow-seq needs a number: engram recall <query...> [--follow-seq <id>]",
                    );
                },
            }
        } else if let Some((value, next)) = option_value(rest, i, "--depth", "--depth=") {
            let number: Option<usize> = match value {
                Some(v) => parse_usize(v),
                None => None,
            };
            match number {
                Some(n) => {
                    depth = n;
                    i = next;
                },
                None => {
                    return invalid(
                        "--depth needs a number: engram recall <query...> [--depth N]",
                    );
                },
            }
        } else if let Some((value, next)) = option_value(rest, i, "--dir", "--dir=") {
            match value {
                Some(v) => {
                    if !names_direction(v) {
                        return invalid("--dir must be up|down|both");
                    }
                    dir = v.to_owned();
                    i = next;
                },
                None => {
                    return invalid("--dir must be up|down|both");
                },
            }
        } else {
            let ghost before = parts@;
            parts.push(rest[i].clone());
            assert(views(parts@) =~= views(before).push(words[i as int]));
            i += 1;
        }
    }
    let query = join(&parts, " ");
    if is_blank(query.as_str()) && follow_seq.is_none() {
        invalid("recall needs a query: engram recall <query...> [--limit N]")
    } else {
        Command::Recall { query, limit, follow_seq, depth, dir }
    }
}

/// The attributions in a list of parts: blank parts are passed over, and the
/// first other part that writes no double is the error.
pub open spec fn attributions_in(parts: Seq<Seq<char>>) -> Result<Seq<Seq<char>>, Seq<char>>
    decreases parts.len(),
{
    if parts.len() == 0 {
        Ok(Seq::empty())
    } else {
        let part = trimmed(parts.last());
        match attributions_in(parts.drop_last()) {
            Ok(before) => if part.len() == 0 {
                Ok(before)
            } else if float_text(part) {
                Ok(before.push(part))
            } else {
                Err(part)
            },
            Err(bad) => Err(bad),
        }
    }
}

/// The command that the words after `reward` make: a score, then a recall id or
/// a list of attributions.
pub open spec fn reward_command(words: Seq<Seq<char>>) -> CommandView {
    if words.len() == 0 {
        CommandView::Invalid {
            message: "reward needs a score: engram reward <score> [attributions csv]"@,
        }
    } else if !float_text(words[0]) {
        CommandView::Invalid { message: "reward score is not a number: "@ + quoted(words[0]) }
    } else if words.len() == 1 {
        CommandView::Reward { score: words[0], attributions: Seq::empty(), recall_id: None }
    } else if begins(words[1], "--recall-id="@) {
        match unsigned_value(
            trimmed(words[1].skip("--recall-id="@.len() as int)),
            u64::MAX as nat,
        ) {
            Some(id) => CommandView::Reward {
                score: words[0],
                attributions: Seq::empty(),
                recall_id: Some(id as u64),
            },
            None => CommandView::Invalid {
                message: "reward recall id is not a number: "@ + quoted(words[1]),
            },
        }
    } else if words[1] == "--recall-id"@ {
        let id = if words.len() > 2 {
            words[2]
        } else {
            Seq::empty()
        };
        match unsigned_value(trimmed(id), u64::MAX as nat) {
            Some(id) => CommandView::Reward {
                score: words[0],
                attributions: Seq::empty(),
                recall_id: Some(id as u64),
            },
            None => CommandView::Invalid { message: "reward needs a number after --recall-id"@ },
        }
    } else {
        match attributions_in(split_on(words[1], ',')) {
            Ok(attributions) => CommandView::Reward {
                score: words[0],
                attributions,
                recall_id: None,
            },
            Err(bad) => CommandView::Invalid {
                message: "reward attribution is not a number: "@ + quoted(bad),
            },
        }
    }
}

/// The attributions that a comma-separated list writes; the error is the first
/// part that writes no double.
pub fn read_attributions(list: &str) -> (r: Result<Vec<String>, String>)
    ensures
        match r {
            Ok(a) => attributions_in(split_on(list@, ',')) == Ok::<Seq<Seq<char>>, Seq<char>>(
                views(a@),
            ),
            Err(bad) => attributions_in(split_on(list@, ',')) == Err::<Seq<Seq<char>>, Seq<char>>(
                bad@,
            ),
        },
{
    let parts = split(list, ',');
    let ghost all = views(parts@);
    let mut out: Vec<String> = Vec::new();
    let mut i: usize = 0;
    assert(views(out@) =~= Seq::empty());
    while i < parts.len()
        invariant
            i <= parts@.len(),
            all == views(parts@),
            all == split_on(list@, ','),
            attributions_in(all.take(i as int)) == Ok::<Seq<Seq<char>>, Seq<char>>(views(out@)),
        decreases parts@.len() - i,
    {
        proof {
            assert(all.take(i + 1).drop_last() =~= all.take(i as int));
            assert(all.take(i + 1).last() == parts@[i as int]@);
        }
        let part = trim(parts[i].as_str());
        if !part.is_empty() {
            if !is_float_text(part) {
                proof {
                    lemma_first_bad(all, i + 1, part@);
                }
                return Err(part.to_owned());
            }
            let ghost before = out@;
            out.push(part.to_owned());
            assert(views(out@) =~= views(before).push(part@));
        }
        i += 1;
    }
    assert(all.take(i as int) =~= all);
    Ok(out)
}

proof fn lemma_first_bad(parts: Seq<Seq<char>>, i: int, bad: Seq<char>)
    requires
        0 <= i <= parts.len(),
        attributions_in(parts.take(i)) == Err::<Seq<Seq<char>>, Seq<char>>(bad),
    ensures
        attributions_in(parts) == Err::<Seq<Seq<char>>, Seq<char>>(bad),
    decreases parts.len() - i,
{
    if i == parts.len() {
        assert(parts.take(i) =~= parts);
    } else {
        assert(parts.take(i + 1).drop_last() =~= parts.take(i));
        lemma_first_bad(parts, i + 1, bad);
    }
}

/// Parses the words after `reward`.
pub fn parse_reward(rest: &Vec<String>) -> (r: Command)
    ensures
        r@ == reward_command(views(rest@)),
{
    let ghost words = views(rest@);
    if rest.len() == 0 {
        return invalid("reward needs a score: engram reward <score> [attributions csv]");
    }
    let score = rest[0].as_str();
    assert(words[0] == score@);
    if !is_float_text(score) {
        let shown = quote(score);
        return Command::Invalid {
            message: "reward score is not a number: ".to_owned().concat(shown.as_str()),
        };
    }
    let none: Vec<String> = Vec::new();
    assert(views(none@) =~= Seq::empty());
    if rest.len() == 1 {
        return Command::Reward { score: score.to_owned(), attributions: none, recall_id: None };
    }
    let second = rest[1].as_str();
    assert(words[1] == second@);
    if let Some(id) = strip_prefix(second, "--recall-id=") {
        return match parse_u64(trim(id)) {
            Some(id) => Command::Reward {
                score: score.to_owned(),
                attributions: none,
                recall_id: Some(id),
            },
            None => {
                let shown = quote(second);
                Command::Invalid {
                    message: "reward recall id is not a number: ".to_owned().concat(shown.as_str()),
                }
            },
        };
    }
    if same(second, "--recall-id") {
        let empty = String::new();
        let id = if rest.len() > 2 {
            rest[2].as_str()
        } else {
            empty.as_str()
        };
        proof {
            if rest@.len() > 2 {
                assert(words[2] == id@);
            } else {
                assert(id@ =~= Seq::empty());
            }
        }
        return match parse_u64(trim(id)) {
            Some(id) => Command::Reward {
                score: score.to_owned(),
                attributions: none,
                recall_id: Some(id),
            },
            None => invalid("reward needs a number after --recall-id"),
        };
    }
    match read_attributions(second) {
        Ok(attributions) => Command::Reward {
            score: score.to_owned(),
            attributions,
            recall_id: None,
        },
        Err(bad) => {
            let shown = quote(bad.as_str());
            Command::Invalid {
                message: "reward attribution is not a number: ".to_owned().concat(shown.as_str()),
            }
        },
    }
}

/// The command that the words after `setup` make: it takes none.
pub open spec fn setup_command(words: Seq<Seq<char>>) -> CommandView {
    if words.len() == 0 {
        CommandView::Setup
    } else {
        CommandView::Invalid {
            message: "setup takes no args (dimension comes from env EMBEDDING_DIM): engram setup"@,
        }
    }
}

/// Parses the words after `setup`.
pub fn parse_setup(rest: &Vec<String>) -> (r: Command)
    ensures
        r@ == setup_command(views(rest@)),
{
    if rest.len() == 0 {
        Command::Setup
    } else {
        invalid("setup takes no args (dimension comes from env EMBEDDING_DIM): engram setup")
    }
}

/// The command that a command line makes. Its first word names the program.
pub open spec fn command_of(argv: Seq<Seq<char>>) -> CommandView {
    if argv.len() < 2 {
        CommandView::Invalid { message: "no command given"@ }
    } else {
        let name = argv[1];
        let rest = argv.skip(2);
        if name == "ingest"@ {
            ingest_command(rest)
        } else if name == "recall"@ {
            recall_command(rest)
        } else if name == "reward"@ {
            reward_command(rest)
        } else if name == "consolidate"@ {
            CommandView::Consolidate
        } else if name == "setup"@ {
            setup_command(rest)
        } else if name == "stats"@ {
            CommandView::Stats
        } else if name == "mcp-server"@ {
            CommandView::McpServer
        } else if name == "mcp-tools"@ {
            CommandView::McpTools
        } else if name == "serve"@ || name == "daemon"@ || name == "up"@ {
            CommandView::Serve
        } else if name == "status"@ {
            CommandView::Status
        } else if name == "train-reranker"@ || name == "train_reranker"@ {
            CommandView::TrainReranker
        } else if name == "help"@ || name == "--help"@ || name == "-h"@ {
            CommandView::Help
        } else if name == "help-all"@ || name == "--help-all"@ {
            CommandView::HelpAll
        } else {
            CommandView::Invalid { message: "unknown command "@ + quoted(name) }
        }
    }
}

/// Parses a command line.
pub fn parse_args(argv: &[String]) -> (r: Command)
    ensures
        r@ == command_of(views(argv@)),
{
    if argv.len() < 2 {
        return invalid("no command given");
    }
    let mut rest: Vec<String> = Vec::new();
    let mut i: usize = 2;
    while i < argv.len()
        invariant
            2 <= i <= argv@.len(),
            views(rest@) == views(argv@).subrange(2, i as int),
        decreases argv@.len() - i,
    {
        let ghost before = rest@;
        rest.push(argv[i].clone());
        assert(views(rest@) =~= views(before).push(views(argv@)[i as int]));
        i += 1;
        assert(views(rest@) =~= views(argv@).subrange(2, i as int));
    }
    assert(views(rest@) =~= views(argv@).skip(2));
    let name = argv[1].as_str();
    assert(views(argv@)[1] == name@);
    if same(name, "ingest") {
        parse_ingest(&rest)
    } else if same(name, "recall") {
        parse_recall(&rest)
    } else if same(name, "reward") {
        parse_reward(&rest)
    } else if same(name, "consolidate") {
        Command::Consolidate
    } else if same(name, "setup") {
        parse_setup(&rest)
    } else if same(name, "stats") {
        Command::Stats
    } else if same(name, "mcp-server") {
        Command::McpServer
    } else if same(name, "mcp-tools") {
        Command::McpTools
    } else if same(name, "serve") || same(name, "daemon") || same(name, "up") {
        Command::Serve
    } else if same(name, "status") {
        Command::Status
    } else if same(name, "train-reranker") || same(name, "train_reranker") {
        Command::TrainReranker
    } else if same(name, "help") || same(name, "--help") || same(name, "-h") {
        Command::Help
    } else if same(name, "help-all") || same(name, "--help-all") {
        Command::HelpAll
    } else {
        let shown = quote(name);
        Command::Invalid { message: "unknown command ".to_owned().concat(shown.as_str()) }
    }
}

/// The commands of an agent.
pub const USAGE: &'static str = "usage: engram <command> [args]\ncapability: episodic memory with optional sequential story chains (TemporalSequence); every recall must be rewarded via reward (use recall_id from recall); recall answers \"I don't know\" when nothing is relevant\n\ncommands:\n  ingest <text...>  store one episodic memory (no sequence needed)\n    optionally sequential: --seq <prev_id> links this engram after <prev_id> via TemporalSequence (use previous ingest's returned id); --seq-pos N groups many engrams at same position N before next (fan-out at level)\n  recall <query...> [--limit N]  recall top-N memories as JSON (default 5); sequential results show [sequential: pos=N head=...]; prints \"I don't know\" when no hit clears the relevance floor (MNEMOS_RECALL_MIN_SIM, default 0.70)\n    optionally walk chain: --follow-seq <id> start from engram <id> (ignore query), --depth N steps (default 10), --dir up|down|both (default down) to traverse TemporalSequence\n  reward <score -1.0 to 1.0> [--recall-id N | attributions csv]  reward a recall based on relevancy of recalled memories so memory learns (edge weights via Adam) — must reward each recall (1.0 relevant positive, -1.0 irrelevant negative, 0 no-op)\n  consolidate                         run one consolidation cycle\n  stats                               print memory stats as JSON\n  status                              check embedding and LLM reachability + stats";

/// All commands.
pub const USAGE_ALL: &'static str = "usage: engram <command> [args]\ncapability: episodic memory with optional sequential story chains (TemporalSequence); every recall must be rewarded via reward (use recall_id from recall); recall answers \"I don't know\" when nothing is relevant\n\ncommands:\n  ingest <text...>  store one episodic memory (no sequence needed)\n    optionally sequential: --seq <prev_id> links after <prev_id> via TemporalSequence (use previous ingest's returned id); --seq-pos N groups many engrams at same position N before next (fan-out)\n  recall <query...> [--limit N]  recall top-N memories as JSON (default 5); sequential results show [sequential: pos=N head=...]; prints \"I don't know\" when no hit clears the relevance floor (MNEMOS_RECALL_MIN_SIM, default 0.70)\n    optionally walk chain: --follow-seq <id> start from <id> (ignore query), --depth N steps (default 10), --dir up|down|both (default down) to traverse TemporalSequence\n  reward <score -1.0 to 1.0> [--recall-id N | attributions csv]  reward a recall based on relevancy of recalled memories so memory learns (edge weights via Adam) — must reward each recall (1.0 relevant positive, -1.0 irrelevant negative, 0 no-op)\n  consolidate                         run one consolidation cycle\n  setup                               create Engram vector index (dim from env EMBEDDING_DIM)\n  stats                               print memory stats as JSON\n  status                              check embedding and LLM reachability + stats\n  train-reranker                      train the learned reranker from the feedback log (operator; then set MNEMOS_RERANKER_ALPHA>0)\n  mcp-server                           serve the full MCP server over stdio\n  mcp-tools                            serve the MCP tool subset over stdio\n  serve (daemon, up)                   persistent daemon: HTTP /mcp*, /cli, /health, /telemetry* + background tasks (stays in terminal)\n\ndaemon mode:\n  CLI commands only hit the running daemon (POST /cli). If it is\n  not running, they print an error — start it with `engram serve`.\n\nenv:\n  LLM_PROVIDER=openai|xai|anthropic|ollama (default openai)\n  EMBEDDING_PROVIDER=openai|local      (default openai)";

/// The usage text of an agent.
pub fn usage() -> (r: &'static str)
    ensures
        r@ == USAGE@,
{
    USAGE
}

/// The usage text of an operator.
pub fn usage_all() -> (r: &'static str)
    ensures
        r@ == USAGE_ALL@,
{
    USAGE_ALL
}

/// Both ways of giving an option its value agree: as the next word, and behind
/// an equals sign.
pub proof fn option_forms_agree(name: Seq<char>, value: Seq<char>)
    ensures
        option_at(seq![name, value], 0, name) == Some((Some(value), 2int)),
        option_at(seq![name + "="@ + value], 0, name) == Some((Some(value), 1int)),
{
    reveal_strlit("=");
    let joined = name + "="@ + value;
    assert(seq![joined][0] == joined);
    assert(joined.len() == name.len() + 1 + value.len());
    assert(joined.take((name + "="@).len() as int) =~= name + "="@);
    assert(joined.skip(name.len() as int + 1) =~= value);
}

/// A word that cannot be an option: it does not begin with a dash.
pub open spec fn plain_word(word: Seq<char>) -> bool {
    word.len() == 0 || word[0] != '-'
}

proof fn lemma_plain_is_no_option(words: Seq<Seq<char>>, i: int, name: Seq<char>)
    requires
        0 <= i < words.len(),
        plain_word(words[i]),
        name.len() > 0,
        name[0] == '-',
    ensures
        option_at(words, i, name) is None,
{
    let sign = name + "="@;
    if begins(words[i], sign) {
        assert(words[i].take(sign.len() as int)[0] == words[i][0]);
        assert(sign[0] == '-');
    }
}

proof fn lemma_option_names()
    ensures
        "--seq"@.len() == 5 && "--seq"@[0] == '-',
        "--seq-pos"@.len() == 9 && "--seq-pos"@[0] == '-',
        "--limit"@.len() == 7 && "--limit"@[0] == '-' && "--limit"@[2] == 'l',
        "--follow-seq"@.len() == 12 && "--follow-seq"@[0] == '-' && "--follow-seq"@[2] == 'f',
        "--depth"@.len() == 7 && "--depth"@[0] == '-' && "--depth"@[2] == 'd',
        "--dir"@.len() == 5 && "--dir"@[0] == '-' && "--dir"@[2] == 'd',
        "--seq"@[2] == 's',
        "--dir"@[3] == 'i',
        "--depth"@[3] == 'e',
        "--seq-pos"@[5] == '-',
        "="@.len() == 1 && "="@[0] == '=',
{
    reveal_strlit("--seq");
    reveal_strlit("--seq-pos");
    reveal_strlit("--limit");
    reveal_strlit("--follow-seq");
    reveal_strlit("--depth");
    reveal_strlit("--dir");
    reveal_strlit("=");
}

proof fn lemma_plain_ingest(words: Seq<Seq<char>>, i: int, args: IngestArgs)
    requires
        0 <= i <= words.len(),
        forall|k: int| i <= k < words.len() ==> plain_word(#[trigger] words[k]),
    ensures
        scan_ingest(words, i, args) == Ok::<IngestArgs, Seq<char>>(
            IngestArgs { parts: args.parts + words.skip(i), ..args },
        ),
    decreases words.len() - i,
{
    lemma_option_names();
    if i < words.len() {
        lemma_plain_is_no_option(words, i, "--seq"@);
        lemma_plain_is_no_option(words, i, "--seq-pos"@);
        let next = IngestArgs { parts: args.parts.push(words[i]), ..args };
        lemma_plain_ingest(words, i + 1, next);
        assert(next.parts + words.skip(i + 1) =~= args.parts + words.skip(i));
    } else {
        assert(args.parts + words.skip(i) =~= args.parts);
    }
}

proof fn lemma_plain_recall(words: Seq<Seq<char>>, i: int, args: RecallArgs)
    requires
        0 <= i <= words.len(),
        forall|k: int| i <= k < words.len() ==> plain_word(#[trigger] words[k]),
    ensures
        scan_recall(words, i, args) == Ok::<RecallArgs, Seq<char>>(
            RecallArgs { parts: args.parts + words.skip(i), ..args },
        ),
    decreases words.len() - i,
{
    lemma_option_names();
    if i < words.len() {
        lemma_plain_is_no_option(words, i, "--limit"@);
        lemma_plain_is_no_option(words, i, "--follow-seq"@);
        lemma_plain_is_no_option(words, i, "--depth"@);
        lemma_plain_is_no_option(words, i, "--dir"@);
        let next = RecallArgs { parts: args.parts.push(words[i]), ..args };
        lemma_plain_recall(words, i + 1, next);
        assert(next.parts + words.skip(i + 1) =~= args.parts + words.skip(i));
    } else {
        assert(args.parts + words.skip(i) =~= args.parts);
    }
}

/// Words without options are the text of an ingest and the query of a recall, with
/// a space between them, and nothing else is set: five memories, no walk.
pub proof fn plain_words_are_the_text(words: Seq<Seq<char>>)
    requires
        forall|k: int| 0 <= k < words.len() ==> plain_word(#[trigger] words[k]),
        !blank(joined(words, " "@)),
    ensures
        ingest_command(words) == (CommandView::Ingest {
            text: joined(words, " "@),
            prev_id: None,
            seq_pos: None,
        }),
        recall_command(words) == (CommandView::Recall {
            query: joined(words, " "@),
            limit: 5,
            follow_seq: None,
            depth: 10,
            dir: "down"@,
        }),
{
    lemma_plain_ingest(
        words,
        0,
        IngestArgs { prev_id: None, seq_pos: None, parts: Seq::empty() },
    );
    lemma_plain_recall(words, 0, plain_recall());
    assert(Seq::<Seq<char>>::empty() + words.skip(0) =~= words);
}

/// Nothing but white space is no text and no query.
pub proof fn blank_lines_are_refused(words: Seq<Seq<char>>)
    requires
        forall|k: int| 0 <= k < words.len() ==> plain_word(#[trigger] words[k]),
        blank(joined(words, " "@)),
    ensures
        ingest_command(words) is Invalid,
        recall_command(words) is Invalid,
{
    lemma_plain_ingest(
        words,
        0,
        IngestArgs { prev_id: None, seq_pos: None, parts: Seq::empty() },
    );
    lemma_plain_recall(words, 0, plain_recall());
    assert(Seq::<Seq<char>>::empty() + words.skip(0) =~= words);
}

proof fn lemma_other_option(words: Seq<Seq<char>>, i: int, name: Seq<char>, k: int)
    requires
        0 <= i < words.len(),
        0 <= k < name.len(),
        k < words[i].len(),
        words[i][k] != name[k],
    ensures
        option_at(words, i, name) is None,
{
    let sign = name + "="@;
    if begins(words[i], sign) {
        assert(words[i].take(sign.len() as int)[k] == words[i][k]);
        assert(sign[k] == name[k]);
    }
}

/// An option of a recall sets what it names and nothing else: how many memories,
/// where to walk from, how deep, and which way.
pub proof fn recall_options_set_what_they_name(words: Seq<Seq<char>>, n: u64, dir: Seq<char>)
    requires
        forall|k: int| 0 <= k < words.len() ==> plain_word(#[trigger] words[k]),
        !blank(joined(words, " "@)),
        is_direction(dir),
    ensures
        n <= usize::MAX ==> recall_command(seq!["--limit"@, decimal(n as nat)] + words) == (
        CommandView::Recall {
            query: joined(words, " "@),
            limit: n as usize,
            follow_seq: None,
            depth: 10,
            dir: "down"@,
        }),
        recall_command(seq!["--follow-seq"@, decimal(n as nat)] + words) == (CommandView::Recall {
            query: joined(words, " "@),
            limit: 5,
            follow_seq: Some(n),
            depth: 10,
            dir: "down"@,
        }),
        n <= usize::MAX ==> recall_command(seq!["--depth"@, decimal(n as nat)] + words) == (
        CommandView::Recall {
            query: joined(words, " "@),
            limit: 5,
            follow_seq: None,
            depth: n as usize,
            dir: "down"@,
        }),
        recall_command(seq!["--dir"@, dir] + words) == (CommandView::Recall {
            query: joined(words, " "@),
            limit: 5,
            follow_seq: None,
            depth: 10,
            dir,
        }),
{
    lemma_option_names();
    decimal_reads_back(n as nat, u64::MAX as nat);
    if n <= usize::MAX {
        decimal_reads_back(n as nat, usize::MAX as nat);
        let a = seq!["--limit"@, decimal(n as nat)] + words;
        assert(a[0] == "--limit"@ && a[1] == decimal(n as nat));
        assert(a.skip(2) =~= words);
        lemma_rest_of_recall(
            a,
            words,
            RecallArgs { limit: n as usize, ..plain_recall() },
        );
        let c = seq!["--depth"@, decimal(n as nat)] + words;
        assert(c[0] == "--depth"@ && c[1] == decimal(n as nat));
        assert(c.skip(2) =~= words);
        lemma_other_option(c, 0, "--limit"@, 2);
        lemma_other_option(c, 0, "--follow-seq"@, 2);
        lemma_rest_of_recall(
            c,
            words,
            RecallArgs { depth: n as usize, ..plain_recall() },
        );
    }
    let b = seq!["--follow-seq"@, decimal(n as nat)] + words;
    assert(b[0] == "--follow-seq"@ && b[1] == decimal(n as nat));
    assert(b.skip(2) =~= words);
    lemma_other_option(b, 0, "--limit"@, 2);
    lemma_rest_of_recall(b, words, RecallArgs { follow_seq: Some(n), ..plain_recall() });
    let d = seq!["--dir"@, dir] + words;
    assert(d[0] == "--dir"@ && d[1] == dir);
    assert(d.skip(2) =~= words);
    lemma_other_option(d, 0, "--limit"@, 2);
    lemma_other_option(d, 0, "--follow-seq"@, 2);
    lemma_other_option(d, 0, "--depth"@, 3);
    lemma_rest_of_recall(d, words, RecallArgs { dir, ..plain_recall() });
}

proof fn lemma_rest_of_recall(all: Seq<Seq<char>>, words: Seq<Seq<char>>, args: RecallArgs)
    requires
        all.len() == words.len() + 2,
        all.skip(2) == words,
        forall|k: int| 0 <= k < words.len() ==> plain_word(#[trigger] words[k]),
        args.parts.len() == 0,
    ensures
        scan_recall(all, 2, args) == Ok::<RecallArgs, Seq<char>>(RecallArgs { parts: words, ..args }),
{
    assert forall|k: int| 2 <= k < all.len() implies plain_word(#[trigger] all[k]) by {
        assert(all.skip(2)[k - 2] == all[k]);
        assert(plain_word(words[k - 2]));
    }
    lemma_plain_recall(all, 2, args);
    assert(args.parts + all.skip(2) =~= words);
}

/// A memory after another is told so by the id of that one, and its place by a
/// position.
pub proof fn ingest_options_set_what_they_name(words: Seq<Seq<char>>, n: u64)
    requires
        forall|k: int| 0 <= k < words.len() ==> plain_word(#[trigger] words[k]),
        !blank(joined(words, " "@)),
    ensures
        ingest_command(seq!["--seq"@, decimal(n as nat)] + words) == (CommandView::Ingest {
            text: joined(words, " "@),
            prev_id: Some(n),
            seq_pos: None,
        }),
        n <= i64::MAX ==> ingest_command(seq!["--seq-pos"@, decimal(n as nat)] + words) == (
        CommandView::Ingest {
            text: joined(words, " "@),
            prev_id: None,
            seq_pos: Some(n as i64),
        }),
{
    lemma_option_names();
    decimal_reads_back(n as nat, u64::MAX as nat);
    let none = IngestArgs { prev_id: None, seq_pos: None, parts: Seq::<Seq<char>>::empty() };
    let a = seq!["--seq"@, decimal(n as nat)] + words;
    assert(a[0] == "--seq"@ && a[1] == decimal(n as nat));
    assert(a.skip(2) =~= words);
    assert forall|k: int| 2 <= k < a.len() implies plain_word(#[trigger] a[k]) by {
        assert(plain_word(words[k - 2]));
    }
    lemma_plain_ingest(a, 2, IngestArgs { prev_id: Some(n), ..none });
    assert(none.parts + words =~= words);
    let b = seq!["--seq-pos"@, decimal(n as nat)] + words;
    assert(b[0] == "--seq-pos"@ && b[1] == decimal(n as nat));
    assert(b.skip(2) =~= words);
    assert forall|k: int| 2 <= k < b.len() implies plain_word(#[trigger] b[k]) by {
        assert(plain_word(words[k - 2]));
    }
    assert(option_at(b, 0, "--seq"@) is None) by {
        let sign = "--seq"@ + "="@;
        assert(sign[5] == '=');
        if begins(b[0], sign) {
            assert(b[0].take(6)[5] == b[0][5]);
        }
    }
    if n <= i64::MAX {
        let digits = decimal(n as nat);
        assert(digit(digits[0]));
        assert(i64_value(digits) == Some(n as int));
        lemma_plain_ingest(b, 2, IngestArgs { seq_pos: Some(n as i64), ..none });
    }
}

/// The attributions of a reward are the parts of its list that are not blank, in
/// order and trimmed; one that is no number refuses the whole list.
pub proof fn every_attribution_is_read(parts: Seq<Seq<char>>)
    ensures
        attributions_in(parts) is Ok <==> forall|i: int|
            0 <= i < parts.len() ==> trimmed(#[trigger] parts[i]).len() == 0 || float_text(
                trimmed(parts[i]),
            ),
        attributions_in(parts) matches Ok(all) ==> all == parts.filter(
            |p: Seq<char>| trimmed(p).len() > 0,
        ).map_values(|p: Seq<char>| trimmed(p)),
    decreases parts.len(),
{
    reveal(Seq::filter);
    let keeps = |p: Seq<char>| trimmed(p).len() > 0;
    let reads = |p: Seq<char>| trimmed(p);
    if parts.len() > 0 {
        let fewer = parts.drop_last();
        every_attribution_is_read(fewer);
        if attributions_in(parts) is Ok {
            assert forall|i: int| 0 <= i < parts.len() implies trimmed(#[trigger] parts[i]).len()
                == 0 || float_text(trimmed(parts[i])) by {
                if i < fewer.len() {
                    assert(parts[i] == fewer[i]);
                }
            }
            assert(attributions_in(parts)->Ok_0 =~= parts.filter(keeps).map_values(reads));
        } else if forall|i: int|
            0 <= i < parts.len() ==> trimmed(#[trigger] parts[i]).len() == 0 || float_text(
                trimmed(parts[i]),
            ) {
            assert forall|i: int| 0 <= i < fewer.len() implies trimmed(#[trigger] fewer[i]).len()
                == 0 || float_text(trimmed(fewer[i])) by {
                assert(parts[i] == fewer[i]);
            }
            assert(trimmed(parts[parts.len() - 1]).len() == 0 || float_text(
                trimmed(parts[parts.len() - 1]),
            ));
        }
    } else {
        assert(attributions_in(parts)->Ok_0 =~= parts.filter(keeps).map_values(reads));
    }
}

/// A reward names its score, and the recall it is for by its id in either form.
pub proof fn rewards_name_their_recall(score: Seq<char>, n: u64)
    requires
        float_text(score),
    ensures
        reward_command(seq![score]) == (CommandView::Reward {
            score,
            attributions: Seq::empty(),
            recall_id: None,
        }),
        reward_command(seq![score, "--recall-id"@, decimal(n as nat)]) == (CommandView::Reward {
            score,
            attributions: Seq::empty(),
            recall_id: Some(n),
        }),
        reward_command(seq![score, "--recall-id="@ + decimal(n as nat)]) == (CommandView::Reward {
            score,
            attributions: Seq::empty(),
            recall_id: Some(n),
        }),
{
    decimal_reads_back(n as nat, u64::MAX as nat);
    numerals_are_trimmed(n as nat);
    reveal_strlit("--recall-id");
    reveal_strlit("--recall-id=");
    let sign = "--recall-id="@;
    assert("--recall-id"@.len() == 11 && sign.len() == 12);
    let given = sign + decimal(n as nat);
    assert(given.take(12) =~= sign);
    assert(given.skip(12) =~= decimal(n as nat));
    let words = seq![score, "--recall-id"@, decimal(n as nat)];
    assert(words[1] == "--recall-id"@ && words[2] == decimal(n as nat));
    let other = seq![score, given];
    assert(other[1] == given);
}

/// A score that is no number is refused, and so is a reward without one.
pub proof fn rewards_need_a_number(words: Seq<Seq<char>>)
    ensures
        words.len() == 0 ==> reward_command(words) is Invalid,
        words.len() > 0 && !float_text(words[0]) ==> reward_command(words) is Invalid,
{
}

/// A line without a command is refused, a setup takes no words, and the words that
/// follow a command are its own.
pub proof fn commands_take_what_follows(program: Seq<char>, rest: Seq<Seq<char>>)
    ensures
        command_of(seq![program]) is Invalid,
        command_of(seq![program, "ingest"@] + rest) == ingest_command(rest),
        command_of(seq![program, "recall"@] + rest) == recall_command(rest),
        command_of(seq![program, "reward"@] + rest) == reward_command(rest),
        rest.len() == 0 ==> command_of(seq![program, "setup"@] + rest) == CommandView::Setup,
        rest.len() > 0 ==> command_of(seq![program, "setup"@] + rest) is Invalid,
        command_of(seq![program, "consolidate"@] + rest) == CommandView::Consolidate,
        command_of(seq![program, "stats"@] + rest) == CommandView::Stats,
{
    reveal_strlit("ingest");
    reveal_strlit("recall");
    reveal_strlit("reward");
    reveal_strlit("setup");
    reveal_strlit("consolidate");
    reveal_strlit("stats");
    assert("ingest"@[0] == 'i' && "ingest"@.len() == 6);
    assert("recall"@[2] == 'c' && "recall"@[0] == 'r' && "recall"@.len() == 6);
    assert("reward"@[2] == 'w' && "reward"@[0] == 'r' && "reward"@.len() == 6);
    assert("setup"@[1] == 'e' && "setup"@.len() == 5);
    assert("stats"@[1] == 't' && "stats"@.len() == 5);
    assert("consolidate"@.len() == 11);
    let a = seq![program, "ingest"@] + rest;
    assert(a[1] == "ingest"@ && a.skip(2) =~= rest);
    let b = seq![program, "recall"@] + rest;
    assert(b[1] == "recall"@ && b.skip(2) =~= rest);
    let c = seq![program, "reward"@] + rest;
    assert(c[1] == "reward"@ && c.skip(2) =~= rest);
    let d = seq![program, "setup"@] + rest;
    assert(d[1] == "setup"@ && d.skip(2) =~= rest);
    let e = seq![program, "consolidate"@] + rest;
    assert(e[1] == "consolidate"@ && e.skip(2) =~= rest);
    let f = seq![program, "stats"@] + rest;
    assert(f[1] == "stats"@ && f.skip(2) =~= rest);
}

/// Three names serve, and three show the usage.
pub proof fn names_mean_their_command(argv: Seq<Seq<char>>)
    requires
        argv.len() >= 2,
    ensures
        command_of(argv) is Serve <==> argv[1] == "serve"@ || argv[1] == "daemon"@ || argv[1]
            == "up"@,
        command_of(argv) is Status <==> argv[1] == "status"@,
        command_of(argv) is Help <==> argv[1] == "help"@ || argv[1] == "--help"@ || argv[1]
            == "-h"@,
        command_of(argv) is HelpAll <==> argv[1] == "help-all"@ || argv[1] == "--help-all"@,
        command_of(argv) is TrainReranker <==> argv[1] == "train-reranker"@ || argv[1]
            == "train_reranker"@,
        command_of(argv) is McpServer <==> argv[1] == "mcp-server"@,
        command_of(argv) is McpTools <==> argv[1] == "mcp-tools"@,
{
    reveal_strlit("ingest");
    reveal_strlit("recall");
    reveal_strlit("reward");
    reveal_strlit("setup");
    reveal_strlit("consolidate");
    reveal_strlit("stats");
    reveal_strlit("mcp-server");
    reveal_strlit("mcp-tools");
    reveal_strlit("serve");
    reveal_strlit("daemon");
    reveal_strlit("up");
    reveal_strlit("status");
    reveal_strlit("train-reranker");
    reveal_strlit("train_reranker");
    reveal_strlit("help");
    reveal_strlit("--help");
    reveal_strlit("-h");
    reveal_strlit("help-all");
    reveal_strlit("--help-all");
    assert("ingest"@[0] == 'i' && "ingest"@.len() == 6);
    assert("recall"@[0] == 'r' && "recall"@.len() == 6);
    assert("reward"@[0] == 'r' && "reward"@.len() == 6);
    assert("setup"@[1] == 'e' && "setup"@[2] == 't' && "setup"@.len() == 5);
    assert("consolidate"@.len() == 11);
    assert("stats"@[1] == 't' && "stats"@.len() == 5);
    assert("mcp-server"@[0] == 'm' && "mcp-server"@.len() == 10);
    assert("mcp-tools"@.len() == 9);
    assert("serve"@[1] == 'e' && "serve"@[2] == 'r' && "serve"@.len() == 5);
    assert("daemon"@[0] == 'd' && "daemon"@.len() == 6);
    assert("up"@[0] == 'u' && "up"@.len() == 2);
    assert("status"@[0] == 's' && "status"@.len() == 6);
    assert("train-reranker"@.len() == 14);
    assert("train_reranker"@.len() == 14);
    assert("help"@.len() == 4);
    assert("--help"@[0] == '-' && "--help"@.len() == 6);
    assert("-h"@[0] == '-' && "-h"@.len() == 2);
    assert("help-all"@.len() == 8);
    assert("--help-all"@[0] == '-' && "--help-all"@.len() == 10);
}

} // verus!
