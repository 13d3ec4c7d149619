//! What a child is started with: its environment, which tells it the port
//! of each service it receives.
use crate::config::{clone_bindings, ProcessSpec, ProcessSpecView};
use crate::text::{decimal, decimal_string};
use vstd::prelude::*;

verus! {

/// The upper-case form of a string.
pub uninterp spec fn uppercased(s: Seq<char>) -> Seq<char>;

/// The upper-case form of `s`. Trusted: `str::to_uppercase` of std, whose
/// result depends on the text alone; it is named, not described.
#[verifier::external_body]
fn to_uppercase(s: &str) -> (r: String)
    ensures
        r@ == uppercased(s@),
{
    s.to_uppercase()
}

/// The variable that tells a child the port of `service`.
pub open spec fn port_variable_name(service: Seq<char>) -> Seq<char> {
    "SERVICE_PORT_"@ + uppercased(service)
}

/// The variables that tell a child its ports, one for each binding, in order.
pub open spec fn port_variables(ports: Seq<(Seq<char>, u16)>) -> Seq<(Seq<char>, Seq<char>)> {
    Seq::new(
        ports.len(),
        |i: int| (port_variable_name(ports[i].0), decimal(ports[i].1 as nat)),
    )
}

/// The environment of a child of `spec` that holds `ports`: the variables
/// of the spec, then one port variable for each binding. Applied in this
/// order, a port variable overrides a variable of the spec with its name.
pub open spec fn child_environment(spec: ProcessSpecView, ports: Seq<(Seq<char>, u16)>) -> Seq<
    (Seq<char>, Seq<char>),
> {
    spec.env + port_variables(ports)
}

/// The name of the port variable, given the service's name in upper case.
pub fn port_variable_for(upper: &str) -> (name: String)
    ensures
        name@ == "SERVICE_PORT_"@ + upper@,
{
    "SERVICE_PORT_".to_owned().concat(upper)
}

/// The name of the variable that tells a child the port of `service`.
pub fn port_variable(service: &str) -> (name: String)
    ensures
        name@ == port_variable_name(service@),
{
    port_variable_for(to_uppercase(service).as_str())
}

/// Builds the environment of a child of `spec` that holds `ports`.
pub fn environment(spec: &ProcessSpec, ports: &Vec<(String, u16)>) -> (env: Vec<(String, String)>)
    ensures
        env.deep_view() == child_environment(spec@, ports.deep_view()),
{
    let mut env = clone_bindings(&spec.env);
    let ghost base = spec@.env;
    let ghost all = ports.deep_view();
    let mut i: usize = 0;
    while i < ports.len()
        invariant
            i <= ports.len(),
            all == ports.deep_view(),
            env.deep_view() == base + port_variables(all).take(i as int),
        decreases ports.len() - i,
    {
        let ghost before = env.deep_view();
        let name = port_variable(ports[i].0.as_str());
        let value = decimal_string(ports[i].1 as u64);
        env.push((name, value));
        proof {
            assert(all[i as int] == ports[i as int].deep_view());
            assert(env.deep_view() =~= before.push(port_variables(all)[i as int]));
            assert(port_variables(all).take(i as int + 1) =~= port_variables(all).take(
                i as int,
            ).push(port_variables(all)[i as int]));
            assert(base + port_variables(all).take(i as int + 1) =~= (base + port_variables(
                all,
            ).take(i as int)).push(port_variables(all)[i as int]));
        }
        i += 1;
    }
    assert(port_variables(all).take(i as int) =~= port_variables(all));
    env
}

} // verus!
