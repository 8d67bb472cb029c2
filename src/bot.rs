//! The decisions of the chat front end: settings, commands, presence from
//! voice states, and the totals reply.

use vstd::prelude::*;
use crate::format::{discord_text, seconds_to_discord_formatted};
use crate::snapshot::text_at;
use crate::time::MICROS_PER_SECOND;

verus! {

/// The command prefix that a new installation listens to.
pub const DEFAULT_PREFIX: &'static str = ">>";

/// The directory that charts go to by default.
pub const DEFAULT_OUTPUT_DIR: &'static str = "./data";

/// The bot's settings: the prefix that marks a command, and where charts
/// are written.
#[derive(Clone, Debug)]
pub struct Settings {
    pub prefix: String,
    pub output_dir: String,
}

impl Default for Settings {
    fn default() -> (r: Settings)
        ensures
            r.prefix@ == DEFAULT_PREFIX@,
            r.output_dir@ == DEFAULT_OUTPUT_DIR@,
    {
        Settings { prefix: DEFAULT_PREFIX.to_owned(), output_dir: DEFAULT_OUTPUT_DIR.to_owned() }
    }
}

/// What `stats` was asked for.
#[derive(Clone, Copy, Debug, PartialEq, Eq, Structural)]
pub enum StatsRequest {
    /// No argument: everyone's all-time total.
    Totals,
    /// `graph` or `graph total`: the chart of running totals.
    GraphTotal,
    /// `graph time-per-day`: the chart of per-day totals.
    GraphPerDay,
    /// Anything else.
    Unknown,
}

/// What `settings` was asked for.
#[derive(Clone, Debug)]
pub enum SettingsRequest {
    /// No argument: the list of settings.
    Show,
    /// `prefix <p>`: the new prefix.
    SetPrefix(String),
    /// `prefix` with no value or more than one.
    WrongArgCount,
    /// A setting that does not exist.
    InvalidSetting,
}

/// A command read from a message.
#[derive(Clone, Debug)]
pub enum Command {
    Stats(StatsRequest),
    Settings(SettingsRequest),
    ForceFlush,
    /// A command that the bot does not know; it is ignored.
    Other,
}

/// The pieces of `s` between spaces, as `str::split(' ')` gives them: empty
/// pieces included, and one empty piece for empty text.
pub open spec fn split_on_space(s: Seq<char>) -> Seq<Seq<char>>
    decreases s.len(),
{
    if s.len() == 0 {
        seq![Seq::<char>::empty()]
    } else {
        let prev = split_on_space(s.drop_last());
        if s.last() == ' ' {
            prev.push(Seq::<char>::empty())
        } else {
            prev.update(prev.len() - 1, prev.last().push(s.last()))
        }
    }
}

proof fn lemma_split_nonempty(s: Seq<char>)
    ensures
        split_on_space(s).len() >= 1,
    decreases s.len(),
{
    if s.len() > 0 {
        lemma_split_nonempty(s.drop_last());
    }
}

/// Strings as texts.
pub open spec fn texts(v: Seq<String>) -> Seq<Seq<char>> {
    v.map_values(|p: String| p@)
}

/// Cuts `s` at every space.
pub fn split_words(s: &str) -> (r: Vec<String>)
    ensures
        texts(r@) == split_on_space(s@),
{
    let n = s.unicode_len();
    let mut words: Vec<String> = Vec::new();
    let mut start: usize = 0;
    let mut i: usize = 0;
    assert(s@.subrange(0, 0) =~= Seq::<char>::empty());
    assert(texts(words@).push(s@.subrange(0, 0)) =~= split_on_space(s@.take(0)));
    while i < n
        invariant
            start <= i <= n,
            n == s@.len(),
            texts(words@).push(s@.subrange(start as int, i as int)) == split_on_space(s@.take(i as int)),
        decreases n - i,
    {
        let c = s.get_char(i);
        let ghost prev = split_on_space(s@.take(i as int));
        assert(s@.take(i + 1).drop_last() =~= s@.take(i as int));
        assert(s@.take(i + 1).last() == c);
        proof {
            lemma_split_nonempty(s@.take(i as int));
        }
        let ghost old_words = texts(words@);
        assert(prev == old_words.push(s@.subrange(start as int, i as int)));
        if c == ' ' {
            let w = s.substring_char(start, i).to_owned();
            words.push(w);
            assert(texts(words@) =~= old_words.push(w@));
            assert(w@ == s@.subrange(start as int, i as int));
            assert(s@.subrange(i + 1, i + 1) =~= Seq::<char>::empty());
            assert(texts(words@).push(s@.subrange(i + 1, i + 1)) =~= prev.push(Seq::<char>::empty()));
            start = i + 1;
        } else {
            assert(s@.subrange(start as int, i + 1) =~= s@.subrange(start as int, i as int).push(c));
            assert(prev.last() == s@.subrange(start as int, i as int));
            assert(texts(words@).push(s@.subrange(start as int, i + 1)) =~= prev.update(
                prev.len() - 1,
                prev.last().push(c),
            ));
        }
        i = i + 1;
    }
    let ghost old_words = texts(words@);
    let w = s.substring_char(start, n).to_owned();
    words.push(w);
    assert(s@.take(n as int) =~= s@);
    assert(texts(words@) =~= old_words.push(s@.subrange(start as int, n as int)));
    words
}

/// The texts are equal.
fn same_text(a: &str, b: &str) -> (r: bool)
    ensures
        r == (a@ == b@),
{
    let r = a.unicode_len() == b.unicode_len() && text_at(a, 0, b);
    assert(a@.subrange(0, a@.len() as int) =~= a@);
    r
}

/// What `stats` with the arguments `args` asks for.
pub open spec fn stats_request_of(args: Seq<Seq<char>>) -> StatsRequest {
    if args.len() == 0 {
        StatsRequest::Totals
    } else if args[0] == "graph"@ && (args.len() == 1 || (args.len() == 2 && args[1] == "total"@)) {
        StatsRequest::GraphTotal
    } else if args.len() == 2 && args[0] == "graph"@ && args[1] == "time-per-day"@ {
        StatsRequest::GraphPerDay
    } else {
        StatsRequest::Unknown
    }
}

/// `req` is what `settings` with the arguments `args` asks for.
pub open spec fn settings_request_is(req: SettingsRequest, args: Seq<Seq<char>>) -> bool {
    match req {
        SettingsRequest::Show => args.len() == 0,
        SettingsRequest::SetPrefix(p) => args.len() == 2 && args[0] == "prefix"@ && p@ == args[1],
        SettingsRequest::WrongArgCount => args.len() > 0 && args[0] == "prefix"@ && args.len() != 2,
        SettingsRequest::InvalidSetting => args.len() > 0 && args[0] != "prefix"@,
    }
}

/// `c` is the command that the words `words` (command name first) give.
pub open spec fn command_is(c: Command, words: Seq<Seq<char>>) -> bool {
    let name = words[0];
    let args = words.skip(1);
    match c {
        Command::Stats(req) => name == "stats"@ && req == stats_request_of(args),
        Command::Settings(req) => name == "settings"@ && settings_request_is(req, args),
        Command::ForceFlush => name == "force-flush"@,
        Command::Other => name != "stats"@ && name != "settings"@ && name != "force-flush"@,
    }
}

/// `prefix` begins `s`.
pub open spec fn starts_with(s: Seq<char>, prefix: Seq<char>) -> bool {
    prefix.len() <= s.len() && s.subrange(0, prefix.len() as int) == prefix
}

/// Reads the command in a message: `None` where the message comes from a bot
/// or does not begin with the prefix; else the command that the words after
/// the prefix give.
pub fn parse_command(content: &str, prefix: &str, from_bot: bool) -> (r: Option<Command>)
    ensures
        r is None <==> (from_bot || !starts_with(content@, prefix@)),
        r matches Some(c) ==> command_is(
            c,
            split_on_space(content@.subrange(prefix@.len() as int, content@.len() as int)),
        ),
{
    if from_bot || !text_at(content, 0, prefix) {
        return None;
    }
    let n = content.unicode_len();
    let rest = content.substring_char(prefix.unicode_len(), n);
    let words = split_words(rest);
    proof {
        lemma_split_nonempty(rest@);
    }
    let ghost w = texts(words@);
    assert(w[0] == words@[0]@);
    let name = words[0].as_str();
    if same_text(name, "stats") {
        let req = if words.len() == 1 {
            StatsRequest::Totals
        } else if same_text(words[1].as_str(), "graph") && (words.len() == 2 || (words.len() == 3
            && same_text(words[2].as_str(), "total"))) {
            StatsRequest::GraphTotal
        } else if words.len() == 3 && same_text(words[1].as_str(), "graph") && same_text(
            words[2].as_str(),
            "time-per-day",
        ) {
            StatsRequest::GraphPerDay
        } else {
            StatsRequest::Unknown
        };
        proof {
            let args = w.skip(1);
            if words.len() > 1 {
                assert(args[0] == words@[1]@);
            }
            if words.len() > 2 {
                assert(args[1] == words@[2]@);
            }
        }
        Some(Command::Stats(req))
    } else if same_text(name, "settings") {
        let req = if words.len() == 1 {
            SettingsRequest::Show
        } else if same_text(words[1].as_str(), "prefix") {
            if words.len() == 3 {
                SettingsRequest::SetPrefix(words[2].clone())
            } else {
                SettingsRequest::WrongArgCount
            }
        } else {
            SettingsRequest::InvalidSetting
        };
        proof {
            let args = w.skip(1);
            if words.len() > 1 {
                assert(args[0] == words@[1]@);
            }
            if words.len() > 2 {
                assert(args[1] == words@[2]@);
            }
        }
        Some(Command::Settings(req))
    } else if same_text(name, "force-flush") {
        Some(Command::ForceFlush)
    } else {
        Some(Command::Other)
    }
}

/// Voice channels whose name begins with `AFK` do not count as presence.
pub fn is_afk_channel(name: &str) -> (r: bool)
    ensures
        r == starts_with(name@, "AFK"@),
{
    text_at(name, 0, "AFK")
}

/// A voice state counts as presence: the user is in a channel that is not
/// an AFK channel, and neither deafened nor self-deafened.
pub fn counts_as_present(channel_name: Option<&str>, deaf: bool, self_deaf: bool) -> (r: bool)
    ensures
        r == (channel_name matches Some(name) && !starts_with(name@, "AFK"@) && !deaf && !self_deaf),
{
    match channel_name {
        Some(name) => !is_afk_channel(name) && !deaf && !self_deaf,
        None => false,
    }
}

/// `s` is ordered by duration, shortest first.
pub open spec fn by_duration(s: Seq<(u64, u64)>) -> bool {
    forall|i: int, j: int| 0 <= i < j < s.len() ==> (#[trigger] s[i]).1 <= (#[trigger] s[j]).1
}

/// Relies on `slice::sort_by` with a comparison of durations: the same
/// items, ordered by duration.
#[verifier::external_body]
fn sort_by_duration(v: &mut Vec<(u64, u64)>)
    ensures
        final(v)@.to_multiset() == old(v)@.to_multiset(),
        by_duration(final(v)@),
{
    v.sort_by(|a, b| a.1.cmp(&b.1))
}

/// The lines of the totals reply: each user with the time, in whole
/// seconds, written as days, hours, minutes and seconds; shortest first.
pub fn totals_report(totals: &Vec<(u64, u64)>) -> (r: Vec<(u64, String)>)
    ensures
        exists|sorted: Seq<(u64, u64)>|
            sorted.to_multiset() == totals@.to_multiset() && by_duration(sorted) && sorted.len()
                == r@.len() && forall|k: int|
                0 <= k < r@.len() ==> (#[trigger] r@[k]).0 == sorted[k].0 && r@[k].1@ == discord_text(
                    sorted[k].1 as int / MICROS_PER_SECOND as int,
                ),
{
    let mut sorted: Vec<(u64, u64)> = Vec::new();
    let mut i: usize = 0;
    while i < totals.len()
        invariant
            i <= totals@.len(),
            sorted@ == totals@.take(i as int),
        decreases totals@.len() - i,
    {
        sorted.push(totals[i]);
        assert(sorted@ =~= totals@.take(i + 1));
        i = i + 1;
    }
    assert(totals@.take(i as int) =~= totals@);
    sort_by_duration(&mut sorted);
    let mut out: Vec<(u64, String)> = Vec::new();
    let mut k: usize = 0;
    while k < sorted.len()
        invariant
            k <= sorted@.len(),
            out@.len() == k,
            forall|j: int|
                0 <= j < k ==> (#[trigger] out@[j]).0 == sorted@[j].0 && out@[j].1@ == discord_text(
                    sorted@[j].1 as int / MICROS_PER_SECOND as int,
                ),
        decreases sorted@.len() - k,
    {
        let (u, micros) = sorted[k];
        let secs = (micros / MICROS_PER_SECOND) as i64;
        out.push((u, seconds_to_discord_formatted(secs)));
        k = k + 1;
    }
    assert(sorted@.to_multiset() == totals@.to_multiset() && by_duration(sorted@) && sorted@.len()
        == out@.len());
    out
}

} // verus!
