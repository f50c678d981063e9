//! One run over the resources to check: the order in which they are taken,
//! what is kept of each, and the report at the end.

use vstd::prelude::*;
use vstd::string::StringExecFns;
use crate::error::ErrorKind;
use crate::snapshot::Status;
use crate::text::texts;

verus! {

/// A course page to check.
#[derive(Debug, Clone)]
pub struct Resource {
    pub id: u64,
    pub name: String,
    pub view_url: String,
}

/// A resource as a plain value.
pub struct ResourceView {
    pub id: u64,
    pub name: Seq<char>,
    pub view_url: Seq<char>,
}

impl View for Resource {
    type V = ResourceView;

    open spec fn view(&self) -> ResourceView {
        ResourceView { id: self.id, name: self.name@, view_url: self.view_url@ }
    }
}

/// The views of a sequence of resources.
pub open spec fn resource_views(resources: Seq<Resource>) -> Seq<ResourceView> {
    resources.map_values(|r: Resource| r@)
}

/// Of the resources that have a status, those of the wanted status, in
/// their order.
pub open spec fn bucket(resources: Seq<ResourceView>, statuses: Seq<Status>, wanted: Status) -> Seq<
    ResourceView,
>
    decreases statuses.len(),
{
    if statuses.len() == 0 || statuses.len() > resources.len() {
        Seq::empty()
    } else {
        let before = bucket(resources, statuses.drop_last(), wanted);
        if statuses.last() == wanted {
            before.push(resources[statuses.len() - 1])
        } else {
            before
        }
    }
}

/// The line of a resource in machine-readable output: the status, the
/// address and the name, with one space between them.
pub open spec fn machine_line(status: Status, resource: ResourceView) -> Seq<char> {
    status.label_text() + " "@ + resource.view_url + " "@ + resource.name
}

/// The line of a resource in a listing for people: a tab, the name, a dash
/// between spaces and the address.
pub open spec fn listing_line(resource: ResourceView) -> Seq<char> {
    "\t"@ + resource.name + " - "@ + resource.view_url
}

/// The machine-readable lines of the resources of one status.
pub open spec fn machine_section(resources: Seq<ResourceView>, status: Status) -> Seq<Seq<char>> {
    resources.map_values(|r: ResourceView| machine_line(status, r))
}

/// The listing lines of the resources of one section.
pub open spec fn listing_section(resources: Seq<ResourceView>) -> Seq<Seq<char>> {
    resources.map_values(|r: ResourceView| listing_line(r))
}

/// The machine-readable report: one line for each resource, the first
/// fetched ones first, then the updated ones, then those without updates.
pub open spec fn machine_report(resources: Seq<ResourceView>, statuses: Seq<Status>) -> Seq<
    Seq<char>,
> {
    machine_section(bucket(resources, statuses, Status::FirstFetched), Status::FirstFetched)
        + machine_section(bucket(resources, statuses, Status::Updated), Status::Updated)
        + machine_section(bucket(resources, statuses, Status::NoUpdates), Status::NoUpdates)
}

/// The section of the first fetched resources in the report for people:
/// nothing where there are none, else a heading and their lines.
pub open spec fn first_fetched_section(resources: Seq<ResourceView>) -> Seq<Seq<char>> {
    if resources.len() == 0 {
        Seq::empty()
    } else {
        seq!["First fetched:"@] + listing_section(resources)
    }
}

/// The section of the updated resources in the report for people: nothing
/// where there are none, else an empty line, a heading and their lines.
pub open spec fn updated_section(resources: Seq<ResourceView>) -> Seq<Seq<char>> {
    if resources.len() == 0 {
        Seq::empty()
    } else {
        seq![""@, "Updated:"@] + listing_section(resources)
    }
}

/// The report for people: the first fetched resources and the updated ones,
/// each under its heading; nothing at all where there are neither.
pub open spec fn listing_report(resources: Seq<ResourceView>, statuses: Seq<Status>) -> Seq<
    Seq<char>,
> {
    first_fetched_section(bucket(resources, statuses, Status::FirstFetched)) + updated_section(
        bucket(resources, statuses, Status::Updated),
    )
}

/// The report in the wanted form.
pub open spec fn report_lines(resources: Seq<ResourceView>, statuses: Seq<Status>, quiet: bool)
    -> Seq<Seq<char>> {
    if quiet {
        machine_report(resources, statuses)
    } else {
        listing_report(resources, statuses)
    }
}

/// A run in progress: the resources in the order in which they are checked,
/// the statuses found so far, and the fault that ended the run, if any.
pub struct Run {
    resources: Vec<Resource>,
    statuses: Vec<Status>,
    failure: Option<ErrorKind>,
}

/// A run as a plain value.
pub struct RunView {
    pub resources: Seq<ResourceView>,
    pub statuses: Seq<Status>,
    pub failure: Option<ErrorKind>,
}

impl RunView {
    /// Whether a resource is waiting to be checked.
    pub open spec fn is_open(self) -> bool {
        self.failure is None && self.statuses.len() < self.resources.len()
    }

    /// The run after the check of the current resource has ended: a status
    /// is kept and the run moves on, a fault ends the run. A run that is not
    /// open stays as it is.
    pub open spec fn after(self, outcome: Result<Status, ErrorKind>) -> RunView {
        if !self.is_open() {
            self
        } else {
            match outcome {
                Ok(status) => RunView { statuses: self.statuses.push(status), ..self },
                Err(kind) => RunView { failure: Some(kind), ..self },
            }
        }
    }

    /// The report of the run: its lines where every resource has been
    /// checked, nothing where the run has failed or is still open.
    pub open spec fn report(self, quiet: bool) -> Option<Seq<Seq<char>>> {
        if self.failure is None && self.statuses.len() == self.resources.len() {
            Some(report_lines(self.resources, self.statuses, quiet))
        } else {
            None
        }
    }
}

impl View for Run {
    type V = RunView;

    closed spec fn view(&self) -> RunView {
        RunView {
            resources: resource_views(self.resources@),
            statuses: self.statuses@,
            failure: self.failure,
        }
    }
}

impl Run {
    #[verifier::type_invariant]
    spec fn statuses_fit(&self) -> bool {
        self.statuses.len() <= self.resources.len()
    }

    /// Starts a run over the enrolled resources followed by the hidden ones.
    pub fn new(enrolled: Vec<Resource>, hidden: Vec<Resource>) -> (run: Run)
        ensures
            run@.resources == resource_views(enrolled@) + resource_views(hidden@),
            run@.statuses.len() == 0,
            run@.failure is None,
    {
        let mut resources = enrolled;
        let mut rest = hidden;
        resources.append(&mut rest);
        proof {
            assert(resource_views(enrolled@ + hidden@) =~= resource_views(enrolled@)
                + resource_views(hidden@));
        }
        Run { resources, statuses: Vec::new(), failure: None }
    }

    /// The number of resources of the run.
    pub fn total(&self) -> (n: usize)
        ensures
            n == self@.resources.len(),
    {
        self.resources.len()
    }

    /// The number of resources that have a status.
    pub fn checked_so_far(&self) -> (n: usize)
        ensures
            n == self@.statuses.len(),
            n <= self@.resources.len(),
    {
        proof {
            use_type_invariant(self);
        }
        self.statuses.len()
    }

    /// The fault that ended the run, if any.
    pub fn failure(&self) -> (kind: Option<ErrorKind>)
        ensures
            kind == self@.failure,
    {
        self.failure
    }

    /// The resource to check now: the first without a status, unless the run
    /// has failed.
    pub fn current(&self) -> (resource: Option<&Resource>)
        ensures
            match resource {
                Some(r) => self@.is_open() && r@ == self@.resources[self@.statuses.len() as int],
                None => !self@.is_open(),
            },
    {
        proof {
            use_type_invariant(self);
        }
        if self.failure.is_none() && self.statuses.len() < self.resources.len() {
            Some(&self.resources[self.statuses.len()])
        } else {
            None
        }
    }

    /// Takes in how the check of the current resource ended, and gives the
    /// run as it stands after that.
    pub fn record(self, outcome: Result<Status, ErrorKind>) -> (next: Run)
        ensures
            next@ == self@.after(outcome),
    {
        proof {
            use_type_invariant(&self);
        }
        let Run { resources, statuses, failure } = self;
        if failure.is_none() && statuses.len() < resources.len() {
            match outcome {
                Ok(status) => {
                    let mut statuses = statuses;
                    statuses.push(status);
                    Run { resources, statuses, failure }
                },
                Err(kind) => Run { resources, statuses, failure: Some(kind) },
            }
        } else {
            Run { resources, statuses, failure }
        }
    }

    /// The lines of the resources of one status, in the wanted form.
    fn section(&self, wanted: Status, quiet: bool) -> (lines: Vec<String>)
        ensures
            texts(lines@) == if quiet {
                machine_section(bucket(self@.resources, self@.statuses, wanted), wanted)
            } else {
                listing_section(bucket(self@.resources, self@.statuses, wanted))
            },
    {
        proof {
            use_type_invariant(self);
        }
        let ghost resources = self@.resources;
        let ghost statuses = self@.statuses;
        let mut lines: Vec<String> = Vec::new();
        let mut i: usize = 0;
        proof {
            assert(texts(lines@) =~= Seq::<Seq<char>>::empty());
            assert(machine_section(Seq::<ResourceView>::empty(), wanted) =~= Seq::<
                Seq<char>,
            >::empty());
            assert(listing_section(Seq::<ResourceView>::empty()) =~= Seq::<Seq<char>>::empty());
        }
        while i < self.statuses.len()
            invariant
                i <= self.statuses.len() <= self.resources.len(),
                resources == resource_views(self.resources@),
                statuses == self.statuses@,
                texts(lines@) == if quiet {
                    machine_section(bucket(resources, statuses.take(i as int), wanted), wanted)
                } else {
                    listing_section(bucket(resources, statuses.take(i as int), wanted))
                },
            decreases self.statuses.len() - i,
        {
            let ghost before = bucket(resources, statuses.take(i as int), wanted);
            let ghost so_far = lines@;
            proof {
                assert(statuses.take(i + 1).drop_last() =~= statuses.take(i as int));
            }
            if self.statuses[i] == wanted {
                let resource = &self.resources[i];
                let line = if quiet {
                    machine_line_of(wanted, resource)
                } else {
                    listing_line_of(resource)
                };
                lines.push(line);
                proof {
                    assert(texts(so_far.push(line)) =~= texts(so_far).push(line@));
                    assert(machine_section(before.push(resource@), wanted) =~= machine_section(
                        before,
                        wanted,
                    ).push(machine_line(wanted, resource@)));
                    assert(listing_section(before.push(resource@)) =~= listing_section(
                        before,
                    ).push(listing_line(resource@)));
                }
            }
            i += 1;
        }
        proof {
            assert(statuses.take(i as int) =~= statuses);
        }
        lines
    }

    /// The report of the run, line by line: machine-readable where `quiet`
    /// is set, for people otherwise. There is none before every resource has
    /// been checked, nor once the run has failed.
    pub fn report(&self, quiet: bool) -> (lines: Option<Vec<String>>)
        ensures
            match lines {
                Some(l) => self@.report(quiet) == Some(texts(l@)),
                None => self@.report(quiet) is None,
            },
    {
        if self.failure.is_some() || self.statuses.len() != self.resources.len() {
            return None;
        }
        let mut first_fetched = self.section(Status::FirstFetched, quiet);
        let mut updated = self.section(Status::Updated, quiet);
        let mut lines: Vec<String> = Vec::new();
        let ghost first_texts = texts(first_fetched@);
        let ghost updated_texts = texts(updated@);
        if quiet {
            let mut no_updates = self.section(Status::NoUpdates, quiet);
            let ghost rest_texts = texts(no_updates@);
            lines.append(&mut first_fetched);
            lines.append(&mut updated);
            lines.append(&mut no_updates);
            proof {
                assert(texts(lines@) =~= first_texts + updated_texts + rest_texts);
            }
        } else {
            let ghost first_bucket = bucket(self@.resources, self@.statuses, Status::FirstFetched);
            let ghost updated_bucket = bucket(self@.resources, self@.statuses, Status::Updated);
            let ghost first_lines = first_fetched@;
            let ghost updated_lines = updated@;
            proof {
                assert(first_texts.len() == first_lines.len());
                assert(listing_section(first_bucket).len() == first_bucket.len());
                assert(updated_texts.len() == updated_lines.len());
                assert(listing_section(updated_bucket).len() == updated_bucket.len());
            }
            if first_fetched.len() > 0 {
                let heading = String::from_str("First fetched:");
                lines.push(heading);
                lines.append(&mut first_fetched);
                proof {
                    assert(lines@ =~= seq![heading] + first_lines);
                    assert(texts(lines@) =~= seq!["First fetched:"@] + first_texts);
                }
            }
            let ghost upper = lines@;
            proof {
                assert(texts(upper) =~= first_fetched_section(first_bucket));
            }
            if updated.len() > 0 {
                let gap = String::from_str("");
                let heading = String::from_str("Updated:");
                lines.push(gap);
                lines.push(heading);
                lines.append(&mut updated);
                proof {
                    assert(lines@ =~= upper + seq![gap, heading] + updated_lines);
                    assert(texts(lines@) =~= texts(upper) + (seq![""@, "Updated:"@]
                        + updated_texts));
                }
            }
            proof {
                assert(texts(lines@) =~= texts(upper) + updated_section(updated_bucket));
            }
        }
        Some(lines)
    }
}

/// Writes the machine-readable line of a resource.
fn machine_line_of(status: Status, resource: &Resource) -> (line: String)
    ensures
        line@ == machine_line(status, resource@),
{
    let mut line = String::from_str(status.label());
    line.append(" ");
    line.append(resource.view_url.as_str());
    line.append(" ");
    line.append(resource.name.as_str());
    line
}

/// Writes the listing line of a resource.
fn listing_line_of(resource: &Resource) -> (line: String)
    ensures
        line@ == listing_line(resource@),
{
    let mut line = String::from_str("\t");
    line.append(resource.name.as_str());
    line.append(" - ");
    line.append(resource.view_url.as_str());
    line
}

} // verus!
