//! The `workflows` commands over the blueprint workflow library.
use crate::blueprint_workflows::BlueprintWorkflowLibrary;
use crate::text::{owned, seq_join};
use vstd::prelude::*;

verus! {

/// The workflow stems of the library, one per line.
pub fn run_workflows_list(library: &BlueprintWorkflowLibrary) -> (r: String)
    ensures
        r@ == seq_join(library.stems(), "\n"@),
{
    let docs = library.list();
    let mut stems: Vec<String> = Vec::new();
    let n: usize = docs.len();
    for i in 0..n
        invariant
            n == docs@.len(),
            docs@ == library.documents(),
            crate::text::views(stems@) == library.stems().take(i as int),
    {
        let ghost before = crate::text::views(stems@);
        stems.push(docs[i].0.clone());
        proof {
            assert(library.stems()[i as int] == docs@[i as int].0@);
            assert(crate::text::views(stems@) =~= before.push(docs@[i as int].0@));
            assert(library.stems().take(i + 1) =~= library.stems().take(i as int).push(library.stems()[i as int]));
        }
    }
    proof {
        assert(library.stems().take(n as int) =~= library.stems());
    }
    crate::text::join(&stems, "\n")
}

/// The raw YAML of the named workflow, or `workflow not found: <name>`.
pub fn run_workflows_show(library: &BlueprintWorkflowLibrary, name: &str) -> (r: Result<String, String>)
    ensures
        match library.spec_get(name@) {
            Some(y) => r matches Ok(s) && s@ == y,
            None => r matches Err(m) && m@ == "workflow not found: "@ + name@,
        },
{
    match library.get(name) {
        Some(y) => Ok(owned(y)),
        None => {
            let mut m = String::from_str("workflow not found: ");
            m.append(name);
            Err(m)
        },
    }
}

} // verus!
