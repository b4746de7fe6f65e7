//! What one run of the tool does, and the argument lists handed to the
//! container runtime.

use vstd::prelude::*;
use crate::resolver::names_view;

verus! {

/// What a run does, decided from its flags before the runtime is asked
/// anything.
#[derive(Debug, Clone, PartialEq, Eq)]
pub enum Request {
    /// Print the running containers and stop; any service pattern is ignored.
    ListContainers,
    /// No service pattern was given and listing was not asked for.
    MissingService,
    /// Resolve this pattern and stream the chosen container's logs.
    ShowLogs(String),
}

/// Listing wins over a pattern; without either the run is a usage error.
pub fn choose_request(list: bool, service: Option<String>) -> (r: Request)
    ensures
        list ==> r is ListContainers,
        !list && service is None ==> r is MissingService,
        !list && service is Some ==> (r matches Request::ShowLogs(p) && p@ == service->0@),
{
    if list {
        Request::ListContainers
    } else {
        match service {
            Some(p) => Request::ShowLogs(p),
            None => Request::MissingService,
        }
    }
}

/// Arguments of the runtime's listing command, asking for one container
/// name per line.
pub fn list_args() -> (r: Vec<String>)
    ensures
        names_view(r@) == seq!["ps"@, "--format"@, "{{.Names}}"@],
{
    let r = vec![String::from_str("ps"), String::from_str("--format"), String::from_str("{{.Names}}")];
    assert(names_view(r@) =~= seq!["ps"@, "--format"@, "{{.Names}}"@]);
    r
}

/// Arguments of the runtime's log command for `container`, with the follow
/// flag and the tail count passed through as given.
pub open spec fn log_args_spec(container: Seq<char>, follow: bool, tail: Option<Seq<char>>) -> Seq<Seq<char>> {
    let base = seq!["logs"@, container];
    let followed = if follow {
        base.push("--follow"@)
    } else {
        base
    };
    match tail {
        Some(t) => followed + seq!["--tail"@, t],
        None => followed,
    }
}

/// Builds the runtime's log command line for one resolved container.
pub fn log_args(container: &str, follow: bool, tail: Option<&str>) -> (r: Vec<String>)
    ensures
        names_view(r@) == log_args_spec(
            container@,
            follow,
            match tail {
                Some(t) => Some(t@),
                None => None,
            },
        ),
{
    let mut r: Vec<String> = Vec::new();
    r.push(String::from_str("logs"));
    r.push(String::from_str(container));
    if follow {
        r.push(String::from_str("--follow"));
    }
    match tail {
        Some(t) => {
            r.push(String::from_str("--tail"));
            r.push(String::from_str(t));
        },
        None => {},
    }
    assert(names_view(r@) =~= log_args_spec(
        container@,
        follow,
        match tail {
            Some(t) => Some(t@),
            None => None,
        },
    ));
    r
}

/// `header` followed by each name on a line of its own, indented by two spaces.
pub open spec fn indented_display(header: Seq<char>, names: Seq<Seq<char>>) -> Seq<Seq<char>> {
    seq![header] + names.map_values(|n: Seq<char>| "  "@ + n)
}

/// Puts `header` above the names, each indented by two spaces.
fn indented(header: String, names: &Vec<String>) -> (r: Vec<String>)
    ensures
        names_view(r@) == indented_display(header@, names_view(names@)),
{
    let mut r: Vec<String> = Vec::new();
    r.push(header);
    let mut i: usize = 0;
    while i < names.len()
        invariant
            i <= names@.len(),
            names_view(r@) == seq![header@] + names_view(names@).subrange(0, i as int).map_values(
                |n: Seq<char>| "  "@ + n,
            ),
        decreases names@.len() - i,
    {
        let line = String::from_str("  ").concat(names[i].as_str());
        let ghost old_lines = names_view(r@);
        r.push(line);
        assert(names_view(r@) =~= old_lines.push(line@));
        assert(names_view(names@).subrange(0, i + 1) =~= names_view(names@).subrange(0, i as int).push(
            names@[i as int]@,
        ));
        assert(names_view(r@) =~= seq![header@] + names_view(names@).subrange(0, i + 1).map_values(
            |n: Seq<char>| "  "@ + n,
        ));
        i += 1;
    }
    assert(names_view(names@).subrange(0, names@.len() as int) =~= names_view(names@));
    r
}

/// The lines shown for a listing: a heading, then every name indented.
pub fn listing_display(names: &Vec<String>) -> (r: Vec<String>)
    ensures
        names_view(r@) == indented_display("Containers:"@, names_view(names@)),
{
    indented(String::from_str("Containers:"), names)
}

/// The lines shown when a pattern matched several containers: a heading
/// naming the pattern, then every candidate indented.
pub fn ambiguity_display(pattern: &str, candidates: &Vec<String>) -> (r: Vec<String>)
    ensures
        names_view(r@) == indented_display(
            "Multiple containers match '"@ + pattern@ + "':"@,
            names_view(candidates@),
        ),
{
    let header = String::from_str("Multiple containers match '").concat(pattern).concat("':");
    indented(header, candidates)
}

/// The message shown when a pattern selected no single container.
pub fn not_found_message(pattern: &str) -> (r: String)
    ensures
        r@ == "No container found matching: "@ + pattern@,
{
    String::from_str("No container found matching: ").concat(pattern)
}

} // verus!
