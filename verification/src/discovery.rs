//! Discovery: where the candidates come from, and what a run reports.
//!
//! The caller enumerates the network, reads the list and probes the
//! candidates, all at once if it likes. What is decided here does not depend
//! on the order in which the probes end: each candidate's outcome is handed in
//! at the candidate's own position.

use vstd::prelude::*;
use vstd::string::StrSliceExecFns;
use vstd::string::StringExecFns;
use crate::assoc::as_map;
use crate::assoc::distinct_keys;
use crate::assoc::folded;
use crate::assoc::lemma_folded_distinct;
use crate::attributes::pair_texts;
use crate::error::texts;
use crate::error::DutError;
use crate::json::folded_maps;
use crate::json::json_array_text;
use crate::json::render_object_list;
use crate::resolver::DiscoveryResult;
use crate::text::chars_of;
use crate::text::is_space;
use crate::text::lemma_trimmed_is_tight;
use crate::text::same_text;
use crate::text::split_on;
use crate::text::split_range;
use crate::text::trim_range;
use crate::text::trimmed;

verus! {

/// What a discovery was asked to do.
#[derive(Debug, PartialEq, Eq)]
pub struct ArgsDiscover {
    /// The network interface to scan; where none is given, the first one
    /// of the routing table.
    pub interface: Option<String>,
    /// The machine that is to run the discovery in place of this one.
    pub remote: Option<String>,
    /// The file that lists the candidates, `-` for the standard input.
    pub target_list: Option<String>,
    /// Attribute names to ask for beyond the canonical ones.
    pub extra_attr: Vec<String>,
}

/// Where the candidates of a discovery come from.
#[derive(Debug, PartialEq, Eq)]
pub enum DiscoverPlan {
    /// The executable is copied to `host` and `command` is run there;
    /// nothing is probed from here.
    Remote { host: String, command: String },
    /// The candidates are read from the standard input.
    ListFromInput,
    /// The candidates are read from the file of this path.
    ListFromFile(String),
    /// The candidates are the addresses found on the local network, on
    /// this interface where one is given.
    LocalScan(Option<String>),
}

/// A [`DiscoverPlan`] as mathematical values.
pub enum DiscoverPlanView {
    Remote { host: Seq<char>, command: Seq<char> },
    ListFromInput,
    ListFromFile(Seq<char>),
    LocalScan(Option<Seq<char>>),
}

/// The characters of a string that may be absent.
pub open spec fn optional_text(s: Option<String>) -> Option<Seq<char>> {
    match s {
        Some(t) => Some(t@),
        None => None,
    }
}

impl View for DiscoverPlan {
    type V = DiscoverPlanView;

    open spec fn view(&self) -> DiscoverPlanView {
        match *self {
            DiscoverPlan::Remote { host, command } => DiscoverPlanView::Remote {
                host: host@,
                command: command@,
            },
            DiscoverPlan::ListFromInput => DiscoverPlanView::ListFromInput,
            DiscoverPlan::ListFromFile(path) => DiscoverPlanView::ListFromFile(path@),
            DiscoverPlan::LocalScan(interface) => DiscoverPlanView::LocalScan(
                optional_text(interface),
            ),
        }
    }
}

/// `base` followed by each of `words`, a space before each.
pub open spec fn with_words(base: Seq<char>, words: Seq<Seq<char>>) -> Seq<char>
    decreases words.len(),
{
    if words.len() == 0 {
        base
    } else {
        with_words(base, words.drop_last()) + seq![' '] + words.last()
    }
}

/// The command that runs a discovery on the remote machine, with the
/// extra attribute names handed on.
pub open spec fn remote_command(extra: Seq<Seq<char>>) -> Seq<char> {
    with_words("~/lium dut discover"@, extra)
}

/// The plan that the arguments ask for. A remote machine comes before a
/// list, and a list before a scan.
pub open spec fn planned(
    remote: Option<Seq<char>>,
    target_list: Option<Seq<char>>,
    interface: Option<Seq<char>>,
    extra: Seq<Seq<char>>,
) -> DiscoverPlanView {
    match remote {
        Some(host) => DiscoverPlanView::Remote { host, command: remote_command(extra) },
        None => match target_list {
            Some(path) => if path == "-"@ {
                DiscoverPlanView::ListFromInput
            } else {
                DiscoverPlanView::ListFromFile(path)
            },
            None => DiscoverPlanView::LocalScan(interface),
        },
    }
}

/// The command line for a discovery on a remote machine.
pub fn remote_discover_command(extra: &Vec<String>) -> (r: String)
    ensures
        r@ == remote_command(texts(extra@)),
{
    let mut command = "~/lium dut discover".to_owned();
    let mut i: usize = 0;
    proof {
        assert(texts(extra@).take(0).len() == 0);
    }
    while i < extra.len()
        invariant
            i <= extra.len(),
            command@ == remote_command(texts(extra@).take(i as int)),
        decreases extra.len() - i,
    {
        proof {
            reveal_strlit(" ");
            assert(" "@ =~= seq![' ']);
            let upto = texts(extra@).take(i + 1);
            assert(upto.drop_last() =~= texts(extra@).take(i as int));
            assert(upto.last() == extra@[i as int]@);
        }
        command.append(" ");
        command.append(extra[i].as_str());
        i = i + 1;
    }
    proof {
        assert(texts(extra@).take(i as int) =~= texts(extra@));
    }
    command
}

/// Decides where the candidates come from.
pub fn plan_discovery(args: &ArgsDiscover) -> (plan: DiscoverPlan)
    ensures
        plan@ == planned(
            optional_text(args.remote),
            optional_text(args.target_list),
            optional_text(args.interface),
            texts(args.extra_attr@),
        ),
{
    match &args.remote {
        Some(host) => DiscoverPlan::Remote {
            host: host.clone(),
            command: remote_discover_command(&args.extra_attr),
        },
        None => match &args.target_list {
            Some(path) => if same_text(path.as_str(), "-") {
                DiscoverPlan::ListFromInput
            } else {
                DiscoverPlan::ListFromFile(path.clone())
            },
            None => DiscoverPlan::LocalScan(
                match &args.interface {
                    Some(name) => Some(name.clone()),
                    None => None,
                },
            ),
        },
    }
}

/// Whether a line is kept as a candidate: it holds something.
pub open spec fn holds_text() -> spec_fn(Seq<char>) -> bool {
    |line: Seq<char>| line.len() > 0
}

/// A line without the whitespace around it.
pub open spec fn trim_line() -> spec_fn(Seq<char>) -> Seq<char> {
    |line: Seq<char>| trimmed(line)
}

/// The candidates that a list names: one per line, the whitespace around
/// each removed, blank lines left out.
pub open spec fn target_lines(text: Seq<char>) -> Seq<Seq<char>> {
    split_on(trimmed(text), '\n').map_values(trim_line()).filter(holds_text())
}

/// Reads a list of candidates, one per line.
pub fn parse_target_list(text: &str) -> (r: Vec<String>)
    ensures
        texts(r@) == target_lines(text@),
        forall|i: int|
            0 <= i < r@.len() ==> (#[trigger] r@[i])@.len() > 0 && !is_space(r@[i]@[0])
                && !is_space(r@[i]@.last()),
{
    let v = chars_of(text);
    let (lo, hi) = trim_range(&v, 0, v.len());
    proof {
        assert(v@.subrange(0, v.len() as int) =~= v@);
    }
    let lines = split_range(&v, lo, hi, '\n');
    let ghost pieces = split_on(trimmed(text@), '\n');
    let mut r: Vec<String> = Vec::new();
    let mut i: usize = 0;
    proof {
        assert(pieces.take(0).map_values(trim_line()).filter(holds_text()) =~= Seq::<
            Seq<char>,
        >::empty());
    }
    while i < lines.len()
        invariant
            i <= lines.len(),
            v@ == text@,
            pieces == split_on(v@.subrange(lo as int, hi as int), '\n'),
            lines@.len() == pieces.len(),
            forall|k: int|
                0 <= k < lines@.len() ==> lo <= (#[trigger] lines@[k]).0 <= lines@[k].1 <= hi
                    <= v.len() && v@.subrange(lines@[k].0 as int, lines@[k].1 as int) == pieces[k],
            texts(r@) == pieces.take(i as int).map_values(trim_line()).filter(holds_text()),
            forall|k: int|
                0 <= k < r@.len() ==> (#[trigger] r@[k])@.len() > 0 && !is_space(r@[k]@[0])
                    && !is_space(r@[k]@.last()),
        decreases lines.len() - i,
    {
        let (from, to) = lines[i];
        let (a, b) = trim_range(&v, from, to);
        proof {
            let upto = pieces.take(i + 1).map_values(trim_line());
            let before = pieces.take(i as int).map_values(trim_line());
            assert(upto =~= before.push(trimmed(pieces[i as int])));
            before.lemma_filter_push(trimmed(pieces[i as int]), holds_text());
            assert(v@.subrange(a as int, b as int) == trimmed(pieces[i as int]));
        }
        if a < b {
            let ghost prev = r@;
            r.push(text.substring_char(a, b).to_owned());
            proof {
                assert(texts(r@) =~= texts(prev).push(trimmed(pieces[i as int])));
                lemma_trimmed_is_tight(pieces[i as int]);
                assert forall|k: int| 0 <= k < r@.len() implies (#[trigger] r@[k])@.len() > 0
                    && !is_space(r@[k]@[0]) && !is_space(r@[k]@.last()) by {
                    if k < prev.len() {
                        assert(r@[k] == prev[k]);
                    }
                }
            }
        }
        i = i + 1;
    }
    proof {
        assert(pieces.take(i as int) =~= pieces);
    }
    r
}

/// Whether `s` holds `x` before position `n`.
pub open spec fn seen_before(s: Seq<Seq<char>>, n: int, x: Seq<char>) -> bool {
    exists|j: int| 0 <= j < n && j < s.len() && s[j] == x
}

/// The items of `s` without repetitions: each item at the place where it
/// occurs first.
pub open spec fn first_occurrences(s: Seq<Seq<char>>) -> Seq<Seq<char>>
    decreases s.len(),
{
    if s.len() == 0 {
        Seq::empty()
    } else if seen_before(s, s.len() - 1, s.last()) {
        first_occurrences(s.drop_last())
    } else {
        first_occurrences(s.drop_last()).push(s.last())
    }
}

/// Without repetitions: the same items, none twice.
pub proof fn lemma_first_occurrences(s: Seq<Seq<char>>)
    ensures
        first_occurrences(s).no_duplicates(),
        forall|x: Seq<char>| first_occurrences(s).contains(x) <==> s.contains(x),
    decreases s.len(),
{
    if s.len() > 0 {
        let init = s.drop_last();
        lemma_first_occurrences(init);
        let f = first_occurrences(s);
        let g = first_occurrences(init);
        assert forall|x: Seq<char>| f.contains(x) <==> s.contains(x) by {
            if s.contains(x) {
                let k = choose|k: int| 0 <= k < s.len() && s[k] == x;
                if k < s.len() - 1 {
                    assert(init[k] == x);
                    assert(init.contains(x));
                    assert(g.contains(x));
                    let m = choose|m: int| 0 <= m < g.len() && g[m] == x;
                    assert(f[m] == x);
                } else if seen_before(s, s.len() - 1, s.last()) {
                    let j = choose|j: int| 0 <= j < s.len() - 1 && j < s.len() && s[j] == s.last();
                    assert(init[j] == x);
                    assert(init.contains(x));
                } else {
                    assert(f[f.len() - 1] == x);
                }
            }
            if f.contains(x) {
                let m = choose|m: int| 0 <= m < f.len() && f[m] == x;
                if m < g.len() {
                    assert(g[m] == x);
                    assert(g.contains(x));
                    assert(init.contains(x));
                    let k = choose|k: int| 0 <= k < init.len() && init[k] == x;
                    assert(s[k] == x);
                } else {
                    assert(s[s.len() - 1] == x);
                }
            }
        }
        if !seen_before(s, s.len() - 1, s.last()) {
            assert forall|a: int, b: int| 0 <= a < f.len() && 0 <= b < f.len() && a != b implies f[a]
                != f[b] by {
                if a < g.len() && b < g.len() {
                } else {
                    let m = if a < g.len() {
                        a
                    } else {
                        b
                    };
                    assert(g[m] == f[m]);
                    if g[m] == s.last() {
                        assert(g.contains(s.last()));
                        assert(init.contains(s.last()));
                        let k = choose|k: int| 0 <= k < init.len() && init[k] == s.last();
                        assert(s[k] == s.last());
                    }
                }
            }
        }
    }
}

/// The candidates to probe: those named, each once, in the order in which
/// they are named first.
pub fn distinct_candidates(named: &Vec<String>) -> (r: Vec<String>)
    ensures
        texts(r@) == first_occurrences(texts(named@)),
        texts(r@).no_duplicates(),
        forall|x: Seq<char>| texts(r@).contains(x) <==> texts(named@).contains(x),
{
    proof {
        lemma_first_occurrences(texts(named@));
    }
    let mut r: Vec<String> = Vec::new();
    let mut i: usize = 0;
    proof {
        assert(texts(named@).take(0) =~= Seq::<Seq<char>>::empty());
    }
    while i < named.len()
        invariant
            i <= named.len(),
            texts(r@) == first_occurrences(texts(named@).take(i as int)),
        decreases named.len() - i,
    {
        let mut seen: bool = false;
        let mut j: usize = 0;
        while j < i && !seen
            invariant
                j <= i < named.len(),
                seen ==> seen_before(texts(named@), i as int, named@[i as int]@),
                !seen ==> forall|k: int| 0 <= k < j ==> named@[k]@ != named@[i as int]@,
            decreases i - j + if seen { 0int } else { 1int },
        {
            if same_text(named[j].as_str(), named[i].as_str()) {
                assert(texts(named@)[j as int] == named@[i as int]@);
                seen = true;
            } else {
                j = j + 1;
            }
        }
        proof {
            let upto = texts(named@).take(i + 1);
            assert(upto.drop_last() =~= texts(named@).take(i as int));
            assert(upto.last() == named@[i as int]@);
            if seen {
                let w = choose|w: int|
                    0 <= w < i && w < texts(named@).len() && texts(named@)[w] == named@[i as int]@;
                assert(upto[w] == upto.last());
                assert(seen_before(upto, upto.len() - 1, upto.last()));
            } else {
                if seen_before(upto, upto.len() - 1, upto.last()) {
                    let w = choose|w: int|
                        0 <= w < upto.len() - 1 && w < upto.len() && upto[w] == upto.last();
                    assert(named@[w]@ == upto[w]);
                }
            }
        }
        if !seen {
            let ghost prev = r@;
            r.push(named[i].clone());
            proof {
                assert(texts(r@) =~= texts(prev).push(named@[i as int]@));
            }
        }
        i = i + 1;
    }
    proof {
        assert(texts(named@).take(i as int) =~= texts(named@));
    }
    r
}

/// The successful outcomes among `outcomes`, in their order.
pub open spec fn resolved(outcomes: Seq<Result<DiscoveryResult, DutError>>) -> Seq<
    DiscoveryResult,
>
    decreases outcomes.len(),
{
    if outcomes.len() == 0 {
        Seq::empty()
    } else {
        match outcomes.last() {
            Ok(found) => resolved(outcomes.drop_last()).push(found),
            Err(_) => resolved(outcomes.drop_last()),
        }
    }
}

/// The number of successful outcomes among `outcomes`.
pub open spec fn resolved_count(outcomes: Seq<Result<DiscoveryResult, DutError>>) -> nat
    decreases outcomes.len(),
{
    if outcomes.len() == 0 {
        0
    } else if outcomes.last() is Ok {
        resolved_count(outcomes.drop_last()) + 1
    } else {
        resolved_count(outcomes.drop_last())
    }
}

/// What a discovery run reports.
#[derive(Debug)]
pub struct DiscoveryReport {
    /// The number of candidates that were probed.
    pub attempted: usize,
    /// The candidates that resolved, in the order of the candidates.
    pub results: Vec<DiscoveryResult>,
}

/// Gathers the outcomes of the probes, one per candidate, into a report.
/// A candidate that failed is left out and changes nothing else.
pub fn collect(outcomes: Vec<Result<DiscoveryResult, DutError>>) -> (report: DiscoveryReport)
    ensures
        report.attempted == outcomes@.len(),
        report.results@ == resolved(outcomes@),
        report.results@.len() == resolved_count(outcomes@),
{
    let attempted = outcomes.len();
    let mut results: Vec<DiscoveryResult> = Vec::new();
    let ghost all = outcomes@;
    proof {
        assert(all.take(0) =~= Seq::<Result<DiscoveryResult, DutError>>::empty());
    }
    for outcome in it: outcomes
        invariant
            it.seq() == all,
            results@ == resolved(all.take(it.index() as int)),
            results@.len() == resolved_count(all.take(it.index() as int)),
    {
        proof {
            let upto = all.take(it.index() + 1);
            assert(upto.drop_last() =~= all.take(it.index() as int));
            assert(upto.last() == outcome);
        }
        match outcome {
            Ok(found) => {
                results.push(found);
            },
            Err(_) => {},
        }
    }
    proof {
        assert(all.take(all.len() as int) =~= all);
    }
    DiscoveryReport { attempted, results }
}

/// Joining two batches of outcomes joins what they report, and a failed
/// probe adds nothing: no outcome bears on what another one contributes.
pub proof fn lemma_resolved_is_local(
    a: Seq<Result<DiscoveryResult, DutError>>,
    b: Seq<Result<DiscoveryResult, DutError>>,
)
    ensures
        resolved(a + b) == resolved(a) + resolved(b),
        resolved_count(a + b) == resolved_count(a) + resolved_count(b),
        resolved(a).len() == resolved_count(a),
        resolved_count(a) <= a.len(),
    decreases b.len(),
{
    lemma_resolved_len(a);
    if b.len() == 0 {
        assert(a + b =~= a);
        assert(resolved(a) + resolved(b) =~= resolved(a));
    } else {
        lemma_resolved_is_local(a, b.drop_last());
        assert((a + b).drop_last() =~= a + b.drop_last());
        assert((a + b).last() == b.last());
        match b.last() {
            Ok(found) => {
                assert(resolved(a) + resolved(b.drop_last()).push(found) =~= (resolved(a)
                    + resolved(b.drop_last())).push(found));
            },
            Err(_) => {},
        }
    }
}

proof fn lemma_resolved_len(a: Seq<Result<DiscoveryResult, DutError>>)
    ensures
        resolved(a).len() == resolved_count(a),
        resolved_count(a) <= a.len(),
    decreases a.len(),
{
    if a.len() > 0 {
        lemma_resolved_len(a.drop_last());
    }
}

/// The attributes of the results, result by result.
pub open spec fn result_attributes(results: Seq<DiscoveryResult>) -> Seq<
    Map<Seq<char>, Seq<char>>,
> {
    results.map_values(|found: DiscoveryResult| found.attributes@)
}

/// The attributes of every result, each as its pairs of name and value,
/// in the order of the results.
pub fn report_objects(report: &DiscoveryReport) -> (objects: Vec<Vec<(String, String)>>)
    ensures
        objects@.len() == report.results@.len(),
        forall|i: int|
            0 <= i < objects@.len() ==> {
                &&& pair_texts((#[trigger] objects@[i])@) == report.results@[i].attributes.listing()
                &&& distinct_keys(pair_texts(objects@[i]@))
                &&& as_map(pair_texts(objects@[i]@)) == report.results@[i].attributes@
            },
{
    let mut objects: Vec<Vec<(String, String)>> = Vec::new();
    let mut i: usize = 0;
    while i < report.results.len()
        invariant
            i <= report.results.len(),
            objects@.len() == i,
            forall|k: int|
                0 <= k < i ==> {
                    &&& pair_texts((#[trigger] objects@[k])@)
                        == report.results@[k].attributes.listing()
                    &&& distinct_keys(pair_texts(objects@[k]@))
                    &&& as_map(pair_texts(objects@[k]@)) == report.results@[k].attributes@
                },
        decreases report.results.len() - i,
    {
        objects.push(report.results[i].attributes.pairs());
        i = i + 1;
    }
    objects
}

/// The report as the JSON array that a discovery prints: one object per
/// result, in the order of the results, holding the attributes of that
/// result in ascending order of their names. The rendering always
/// succeeds, and the text is the encoder's text for exactly these
/// attributes.
pub fn render_report(report: &DiscoveryReport) -> (r: Result<String, DutError>)
    ensures
        r is Ok,
        r.unwrap()@ == json_array_text(result_attributes(report.results@)),
{
    let objects = report_objects(report);
    proof {
        assert forall|i: int| 0 <= i < objects@.len() implies folded(
            pair_texts((#[trigger] objects@[i])@),
        ) == report.results@[i].attributes@ by {
            lemma_folded_distinct(pair_texts(objects@[i]@));
        }
        assert(folded_maps(objects@) =~= result_attributes(report.results@));
    }
    render_object_list(&objects)
}

} // verus!
