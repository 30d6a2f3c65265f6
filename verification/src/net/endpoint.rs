//! What the endpoint that peers connect to presents itself as.

use vstd::prelude::*;

verus! {

/// How many streams a peer may open at a time.
pub const MAX_CONCURRENT_UNI_STREAMS: u8 = 1;

/// What a list of names says.
pub open spec fn name_views(names: Seq<String>) -> Seq<Seq<char>> {
    names.map_values(|name: String| name@)
}

/// The names that the certificate of the endpoint is issued for: the given ones
/// and `localhost`.
pub fn certificate_names(server_names: Vec<String>) -> (names: Vec<String>)
    ensures
        name_views(names@) == if name_views(server_names@).contains("localhost"@) {
            name_views(server_names@)
        } else {
            name_views(server_names@).push("localhost"@)
        },
{
    let localhost = "localhost".to_string();
    let mut i: usize = 0;
    while i < server_names.len()
        invariant
            i <= server_names@.len(),
            localhost@ == "localhost"@,
            forall|j: int| 0 <= j < i ==> (#[trigger] server_names@[j])@ != "localhost"@,
        decreases server_names@.len() - i,
    {
        if server_names[i] == localhost {
            assert(name_views(server_names@)[i as int] == "localhost"@);
            return server_names;
        }
        i += 1;
    }
    proof {
        if name_views(server_names@).contains("localhost"@) {
            let j = name_views(server_names@).index_of("localhost"@);
            assert(server_names@[j]@ == "localhost"@);
        }
    }
    let mut names = server_names;
    names.push(localhost);
    assert(name_views(names@) =~= name_views(server_names@).push("localhost"@));
    names
}

} // verus!
