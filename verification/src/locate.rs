//! Choosing the process to inspect among those that enumeration reports.

use vstd::prelude::*;
use crate::error::ProcessError;
use crate::process::{text_of, Process, ProcessView};
use crate::text::{chars_of, contains, occurs_in, views};

verus! {

/// What enumeration reports of one running process.
#[derive(Debug)]
pub struct ProcessInfo {
    pub pid: i32,
    /// The command line as the platform reports it.
    pub cmd_buff: String,
    pub executable_dir: Option<String>,
}

impl ProcessInfo {
    /// The string a process is recognised by: its command line, all of it.
    pub open spec fn ident(&self) -> Seq<char> {
        self.cmd_buff@
    }

    /// The matching rule: the command line holds `name` and holds none of
    /// the `exclude` fragments. Case matters.
    pub open spec fn matches(&self, name: Seq<char>, exclude: Seq<Seq<char>>) -> bool {
        &&& occurs_in(name, self.ident())
        &&& forall|k: int| 0 <= k < exclude.len() ==> !occurs_in(#[trigger] exclude[k], self.ident())
    }

    /// Applies the matching rule.
    pub fn is_match(&self, name: &Vec<char>, exclude: &Vec<Vec<char>>) -> (r: bool)
        ensures
            r == self.matches(name@, views(exclude@)),
    {
        let ident = chars_of(self.cmd_buff.as_str());
        if !contains(&ident, name) {
            return false;
        }
        let mut k: usize = 0;
        while k < exclude.len()
            invariant
                k <= exclude@.len(),
                ident@ == self.ident(),
                forall|j: int| 0 <= j < k ==> !occurs_in(#[trigger] views(exclude@)[j], self.ident()),
            decreases exclude.len() - k,
        {
            if contains(&ident, &exclude[k]) {
                assert(views(exclude@)[k as int] == exclude@[k as int]@);
                return false;
            }
            k += 1;
        }
        true
    }
}

/// The index of the first of `infos`, at or after `i`, that the matching rule
/// accepts; the length of `infos` where there is none.
pub open spec fn first_match_from(
    infos: Seq<ProcessInfo>,
    name: Seq<char>,
    exclude: Seq<Seq<char>>,
    i: int,
) -> int
    decreases infos.len() - i,
{
    if i >= infos.len() {
        infos.len() as int
    } else if i >= 0 && infos[i].matches(name, exclude) {
        i
    } else {
        first_match_from(infos, name, exclude, i + 1)
    }
}

/// The index of the first of `infos` that the matching rule accepts; the
/// length of `infos` where there is none.
pub open spec fn first_match(infos: Seq<ProcessInfo>, name: Seq<char>, exclude: Seq<Seq<char>>) -> int {
    first_match_from(infos, name, exclude, 0)
}

/// The index of the first of `infos`, at or after `i`, with process id `pid`;
/// the length of `infos` where there is none.
pub open spec fn first_pid_from(infos: Seq<ProcessInfo>, pid: i32, i: int) -> int
    decreases infos.len() - i,
{
    if i >= infos.len() {
        infos.len() as int
    } else if i >= 0 && infos[i].pid == pid {
        i
    } else {
        first_pid_from(infos, pid, i + 1)
    }
}

/// First match wins: `first_match_from` is the one index before which the
/// rule accepts nothing and at which `infos` ends or the rule accepts.
pub proof fn lemma_first_match(
    infos: Seq<ProcessInfo>,
    name: Seq<char>,
    exclude: Seq<Seq<char>>,
    i: int,
)
    requires
        0 <= i <= infos.len(),
    ensures
        i <= first_match_from(infos, name, exclude, i) <= infos.len(),
        forall|j: int|
            i <= j < first_match_from(infos, name, exclude, i) ==> !(#[trigger] infos[j]).matches(
                name,
                exclude,
            ),
        first_match_from(infos, name, exclude, i) < infos.len() ==> infos[first_match_from(
            infos,
            name,
            exclude,
            i,
        )].matches(name, exclude),
    decreases infos.len() - i,
{
    if i < infos.len() && !infos[i].matches(name, exclude) {
        lemma_first_match(infos, name, exclude, i + 1);
    }
}

/// The characters of each of `words`.
pub open spec fn texts(words: Seq<&str>) -> Seq<Seq<char>> {
    words.map_values(|w: &str| w@)
}

impl Process {
    /// The process that `info` describes, with no region catalogued yet.
    pub open spec fn located(info: ProcessInfo) -> ProcessView {
        ProcessView { pid: info.pid, maps: Seq::empty(), executable_dir: text_of(info.executable_dir) }
    }

    /// Makes the process that `info` describes.
    fn from_info(info: &ProcessInfo) -> (p: Process)
        ensures
            p@ == Self::located(*info),
    {
        let executable_dir = match &info.executable_dir {
            Some(dir) => Some(dir.clone()),
            None => None,
        };
        Process { pid: info.pid, maps: Vec::new(), executable_dir }
    }

    /// Picks the process to inspect among the enumerated ones: the first, in
    /// enumeration order, whose command line holds `proc_name` and none of
    /// the `exclude` fragments. Fails with `ProcessNotFound` where there is
    /// none.
    pub fn find_process(infos: &Vec<ProcessInfo>, proc_name: &str, exclude: &[&str]) -> (r: Result<
        Process,
        ProcessError,
    >)
        ensures
            ({
                let i = first_match(infos@, proc_name@, texts(exclude@));
                match r {
                    Ok(p) => i < infos@.len() && p@ == Self::located(infos@[i]),
                    Err(e) => i == infos@.len() && e == ProcessError::ProcessNotFound,
                }
            }),
    {
        let name = chars_of(proc_name);
        let mut words: Vec<Vec<char>> = Vec::new();
        let mut k: usize = 0;
        while k < exclude.len()
            invariant
                k <= exclude@.len(),
                views(words@) == texts(exclude@).take(k as int),
            decreases exclude.len() - k,
        {
            let w = chars_of(exclude[k]);
            proof {
                assert(views(words@.push(w)) == views(words@).push(w@));
                assert(texts(exclude@).take(k + 1) == texts(exclude@).take(k as int).push(
                    exclude@[k as int]@,
                ));
            }
            words.push(w);
            k += 1;
        }
        proof {
            assert(texts(exclude@).take(k as int) == texts(exclude@));
        }
        let mut i: usize = 0;
        while i < infos.len()
            invariant
                i <= infos@.len(),
                name@ == proc_name@,
                views(words@) == texts(exclude@),
                first_match_from(infos@, name@, texts(exclude@), i as int) == first_match(
                    infos@,
                    name@,
                    texts(exclude@),
                ),
            decreases infos.len() - i,
        {
            if infos[i].is_match(&name, &words) {
                return Ok(Self::from_info(&infos[i]));
            }
            i += 1;
        }
        Err(ProcessError::ProcessNotFound)
    }

    /// Picks the enumerated process with the id `pid`: the first in
    /// enumeration order. Fails with `ProcessNotFound` where there is none.
    pub fn find_pid(infos: &Vec<ProcessInfo>, pid: i32) -> (r: Result<Process, ProcessError>)
        ensures
            ({
                let i = first_pid_from(infos@, pid, 0);
                match r {
                    Ok(p) => i < infos@.len() && p@ == Self::located(infos@[i]),
                    Err(e) => i == infos@.len() && e == ProcessError::ProcessNotFound,
                }
            }),
    {
        let mut i: usize = 0;
        while i < infos.len()
            invariant
                i <= infos@.len(),
                first_pid_from(infos@, pid, i as int) == first_pid_from(infos@, pid, 0),
            decreases infos.len() - i,
        {
            if infos[i].pid == pid {
                return Ok(Self::from_info(&infos[i]));
            }
            i += 1;
        }
        Err(ProcessError::ProcessNotFound)
    }
}

} // verus!
