//! AccessPolicy: two independent allow-list checks gate every forward — the
//! descriptor's project identifier must be in the configured project set, and
//! its host must equal one configured host entry byte for byte.
use vstd::prelude::*;

verus! {

/// True when `host` equals one of the configured entries exactly.
pub open spec fn host_allowed(host: Seq<char>, hosts: Seq<Seq<char>>) -> bool {
    exists|i: int| 0 <= i < hosts.len() && hosts[i] == host
}

/// Membership test against the configured project allow-list.
pub fn project_id_is_allowed(project_id: u64, projects: &Vec<u64>) -> (r: bool)
    ensures
        r == projects@.contains(project_id),
{
    let mut i: usize = 0;
    while i < projects.len()
        invariant
            0 <= i <= projects.len(),
            forall|j: int| 0 <= j < i ==> projects@[j] != project_id,
        decreases projects.len() - i,
    {
        if projects[i] == project_id {
            return true;
        }
        i = i + 1;
    }
    false
}

/// Case-sensitive membership test of `host` against the configured host list.
pub fn host_is_allowed(host: &String, hosts: &Vec<String>) -> (r: bool)
    ensures
        r == host_allowed(host@, hosts.deep_view()),
{
    let ghost all = hosts.deep_view();
    let mut i: usize = 0;
    while i < hosts.len()
        invariant
            0 <= i <= hosts.len(),
            all == hosts.deep_view(),
            forall|j: int| 0 <= j < i ==> all[j] != host@,
        decreases hosts.len() - i,
    {
        proof {
            assert(all[i as int] == hosts@[i as int]@);
        }
        if hosts[i] == *host {
            return true;
        }
        i = i + 1;
    }
    false
}

} // verus!
