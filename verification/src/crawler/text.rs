//! The summary of a crawl as text.

use vstd::prelude::*;
use vstd::string::StringExecFns;

use crate::crawler::histogram::{tallies_of, AgentCount};
use crate::crawler::ranking::{
    agent_ranking, lemma_agent_ranking, rank_agents, rank_versions, version_ranking, Entry,
};
use crate::crawler::summary::NetworkSummary;

verus! {

/// The character that stands for a number below ten.
pub open spec fn digit(d: nat) -> char {
    if d == 0 {
        '0'
    } else if d == 1 {
        '1'
    } else if d == 2 {
        '2'
    } else if d == 3 {
        '3'
    } else if d == 4 {
        '4'
    } else if d == 5 {
        '5'
    } else if d == 6 {
        '6'
    } else if d == 7 {
        '7'
    } else if d == 8 {
        '8'
    } else {
        '9'
    }
}

/// A number in decimal notation, without leading zeros.
pub open spec fn decimal(n: nat) -> Seq<char>
    decreases n,
{
    if n < 10 {
        seq![digit(n)]
    } else {
        decimal(n / 10).push(digit(n % 10))
    }
}

/// One line of a histogram: what is counted, a colon and the count.
pub open spec fn line(label: Seq<char>, count: nat) -> Seq<char> {
    label + ": "@ + decimal(count) + "\n"@
}

/// The lines of a histogram of versions, one for each entry.
pub open spec fn version_lines(lines: Seq<Entry>) -> Seq<char>
    decreases lines.len(),
{
    if lines.len() == 0 {
        Seq::empty()
    } else {
        version_lines(lines.drop_last()) + line(
            decimal(lines.last().0 as nat),
            lines.last().1 as nat,
        )
    }
}

/// The lines of a list of user agents, one for each entry of `lines`, which
/// holds the place of its agent in `tallies`.
pub open spec fn agent_lines(tallies: Seq<(Seq<char>, nat)>, lines: Seq<Entry>) -> Seq<char>
    decreases lines.len(),
{
    if lines.len() == 0 {
        Seq::empty()
    } else {
        agent_lines(tallies, lines.drop_last()) + line(
            tallies[lines.last().0 as int].0,
            lines.last().1 as nat,
        )
    }
}

/// The numbers at the head of a summary.
pub open spec fn heading(summary: NetworkSummary) -> Seq<char> {
    "Network summary:\n\n"@ + "Found a total of "@ + decimal(summary.num_known_nodes as nat)
        + " node(s)\n"@ + "Managed to connect to "@ + decimal(summary.num_good_nodes as nat)
        + " node(s)\n"@ + decimal(summary.num_versions as nat)
        + " identified themselves with a Version\n"@ + "Nodes have "@ + decimal(
        summary.num_known_connections as nat,
    ) + " known connections between them\n"@
}

/// A summary as text: the numbers, the two histograms with the greatest
/// count first, and the runtime in whole minutes.
pub open spec fn summary_text(summary: NetworkSummary) -> Seq<char> {
    heading(summary) + "\nProtocol versions:\n"@ + version_lines(
        version_ranking(summary.protocol_versions@),
    ) + "\nUser agents:\n"@ + agent_lines(
        tallies_of(summary.user_agents@),
        agent_ranking(tallies_of(summary.user_agents@)),
    ) + "\nCrawler ran for a total of "@ + decimal((summary.crawler_runtime.secs / 60) as nat)
        + " minutes\n"@
}

/// The text of one digit.
fn digit_text(d: u64) -> (text: &'static str)
    requires
        d < 10,
    ensures
        text@ == seq![digit(d as nat)],
{
    proof {
        reveal_strlit("0");
        reveal_strlit("1");
        reveal_strlit("2");
        reveal_strlit("3");
        reveal_strlit("4");
        reveal_strlit("5");
        reveal_strlit("6");
        reveal_strlit("7");
        reveal_strlit("8");
        reveal_strlit("9");
    }
    let text = if d == 0 {
        "0"
    } else if d == 1 {
        "1"
    } else if d == 2 {
        "2"
    } else if d == 3 {
        "3"
    } else if d == 4 {
        "4"
    } else if d == 5 {
        "5"
    } else if d == 6 {
        "6"
    } else if d == 7 {
        "7"
    } else if d == 8 {
        "8"
    } else {
        "9"
    };
    assert(text@ =~= seq![digit(d as nat)]);
    text
}

/// Appends `n` in decimal notation to `out`.
pub fn push_decimal(out: &mut String, n: u64)
    ensures
        final(out)@ == old(out)@ + decimal(n as nat),
    decreases n,
{
    if n >= 10 {
        push_decimal(out, n / 10);
    }
    out.append(digit_text(n % 10));
    assert(out@ =~= old(out)@ + decimal(n as nat));
}

/// `n` in decimal notation.
pub fn to_decimal(n: u64) -> (text: String)
    ensures
        text@ == decimal(n as nat),
{
    let mut text = String::new();
    push_decimal(&mut text, n);
    assert(text@ =~= decimal(n as nat));
    text
}

/// Appends one line of a histogram to `out`.
fn push_line(out: &mut String, label: &str, count: usize)
    ensures
        final(out)@ == old(out)@ + line(label@, count as nat),
{
    out.append(label);
    out.append(": ");
    push_decimal(out, count as u64);
    out.append("\n");
    assert(out@ =~= old(out)@ + line(label@, count as nat));
}

/// Appends the lines of a histogram of versions to `out`.
fn push_version_lines(out: &mut String, lines: &Vec<Entry>)
    ensures
        final(out)@ == old(out)@ + version_lines(lines@),
{
    let mut i: usize = 0;
    assert(out@ =~= old(out)@ + version_lines(lines@.take(0)));
    while i < lines.len()
        invariant
            i <= lines.len(),
            out@ == old(out)@ + version_lines(lines@.take(i as int)),
        decreases lines.len() - i,
    {
        let label = to_decimal(lines[i].0);
        push_line(out, label.as_str(), lines[i].1);
        proof {
            assert(lines@.take(i + 1).drop_last() =~= lines@.take(i as int));
            assert(out@ =~= old(out)@ + version_lines(lines@.take(i + 1)));
        }
        i += 1;
    }
    assert(lines@.take(i as int) =~= lines@);
}

/// Appends the lines of a list of user agents to `out`.
fn push_agent_lines(out: &mut String, counts: &Vec<AgentCount>, lines: &Vec<Entry>)
    requires
        forall|i: int| 0 <= i < lines@.len() ==> (#[trigger] lines@[i]).0 < counts@.len(),
    ensures
        final(out)@ == old(out)@ + agent_lines(tallies_of(counts@), lines@),
{
    let mut i: usize = 0;
    let total = counts.len();
    assert(out@ =~= old(out)@ + agent_lines(tallies_of(counts@), lines@.take(0)));
    while i < lines.len()
        invariant
            i <= lines.len(),
            counts@.len() == total,
            forall|i: int| 0 <= i < lines@.len() ==> (#[trigger] lines@[i]).0 < counts@.len(),
            out@ == old(out)@ + agent_lines(tallies_of(counts@), lines@.take(i as int)),
        decreases lines.len() - i,
    {
        assert(lines@[i as int].0 < counts@.len());
        let place = lines[i].0 as usize;
        push_line(out, counts[place].agent.as_str(), lines[i].1);
        proof {
            let grown = lines@.take(i + 1);
            assert(grown.drop_last() =~= lines@.take(i as int));
            assert(grown.last() == lines@[i as int]);
            assert(tallies_of(counts@)[place as int].0 == counts@[place as int].agent@);
            assert(out@ =~= old(out)@ + agent_lines(tallies_of(counts@), grown));
        }
        i += 1;
    }
    assert(lines@.take(i as int) =~= lines@);
}

impl NetworkSummary {
    /// The numbers at the head of the summary, as text.
    fn heading_text(&self) -> (text: String)
        ensures
            text@ == heading(*self),
    {
        let mut text = String::new();
        text.append("Network summary:\n\n");
        text.append("Found a total of ");
        push_decimal(&mut text, self.num_known_nodes as u64);
        text.append(" node(s)\n");
        text.append("Managed to connect to ");
        push_decimal(&mut text, self.num_good_nodes as u64);
        text.append(" node(s)\n");
        push_decimal(&mut text, self.num_versions as u64);
        text.append(" identified themselves with a Version\n");
        text.append("Nodes have ");
        push_decimal(&mut text, self.num_known_connections as u64);
        text.append(" known connections between them\n");
        assert(text@ =~= heading(*self));
        text
    }

    /// The summary as text: the numbers of nodes, versions and connections,
    /// the protocol versions and the user agents with their counts, the
    /// greatest count first, and the runtime in whole minutes.
    ///
    /// Among versions with the same count the lower version comes first;
    /// among user agents with the same count the one found first.
    pub fn to_string(&self) -> (text: String)
        ensures
            text@ == summary_text(*self),
    {
        let mut text = self.heading_text();
        text.append("\nProtocol versions:\n");
        let versions = rank_versions(&self.protocol_versions);
        push_version_lines(&mut text, &versions);
        text.append("\nUser agents:\n");
        let agents = rank_agents(&self.user_agents);
        push_agent_lines(&mut text, &self.user_agents, &agents);
        text.append("\nCrawler ran for a total of ");
        push_decimal(&mut text, self.crawler_runtime.whole_minutes());
        text.append(" minutes\n");
        text
    }
}

} // verus!
