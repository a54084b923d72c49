//! Host resources: reading what `sysctl` prints, and validating capacity against it.
use vstd::prelude::*;

use crate::daemon::WorkerConfig;
use crate::json;
use crate::json::{Json, JsonView, Number, NumberView};
use crate::memory;
use crate::memory::Memory;
use crate::text;

verus! {

/// The physical resources of the machine the worker runs on.
#[derive(Debug, Clone, Copy, PartialEq, Eq, Structural)]
pub struct HostResources {
    pub cpu: u32,
    pub memory_bytes: u64,
}

/// A `sysctl` value that is not a number: which one, and what was printed.
#[derive(Debug, PartialEq, Eq)]
pub struct SysctlError {
    pub key: String,
    pub output: String,
}

impl SysctlError {
    /// The text of the error.
    pub fn message(&self) -> (r: String)
        ensures
            r@ == "parsing sysctl "@ + self.key@ + " output "@ + text::debug_text(self.output@),
    {
        text::cat4("parsing sysctl ", &self.key, " output ", &text::quoted(&self.output))
    }
}

/// The number that a `sysctl` output gives, white space around it aside.
pub open spec fn sysctl_number(output: Seq<char>) -> Option<u64> {
    match text::natural_value(text::trimmed(output)) {
        Some(n) => if n <= u64::MAX {
            Some(n as u64)
        } else {
            None
        },
        None => None,
    }
}

fn sysctl_u64(key: &str, output: &str) -> (r: Result<u64, SysctlError>)
    ensures
        match r {
            Ok(n) => sysctl_number(output@) == Some(n),
            Err(e) => sysctl_number(output@) is None && e.key@ == key@ && e.output@
                == text::trimmed(output@),
        },
{
    let value = text::trim(output);
    match text::parse_natural(&value, 0xffff_ffff_ffff_ffff) {
        Some(n) => Ok(n),
        None => Err(SysctlError { key: key.to_owned(), output: value }),
    }
}

/// Host capacity from what macOS `sysctl` prints for `hw.logicalcpu` and `hw.memsize`.
/// A core count beyond 32 bits counts as the largest there is.
pub fn detect_host(logicalcpu: &str, memsize: &str) -> (r: Result<HostResources, SysctlError>)
    ensures
        match (sysctl_number(logicalcpu@), sysctl_number(memsize@)) {
            (Some(cpu), Some(memory_bytes)) => r == Ok::<HostResources, SysctlError>(
                HostResources {
                    cpu: if cpu <= u32::MAX {
                        cpu as u32
                    } else {
                        u32::MAX
                    },
                    memory_bytes,
                },
            ),
            (None, _) => r matches Err(e) && e.key@ == "hw.logicalcpu"@ && e.output@
                == text::trimmed(logicalcpu@),
            (Some(_), None) => r matches Err(e) && e.key@ == "hw.memsize"@ && e.output@
                == text::trimmed(memsize@),
        },
{
    let cpu = match sysctl_u64("hw.logicalcpu", logicalcpu) {
        Ok(n) => n,
        Err(e) => {
            return Err(e);
        },
    };
    let memory_bytes = match sysctl_u64("hw.memsize", memsize) {
        Ok(n) => n,
        Err(e) => {
            return Err(e);
        },
    };
    Ok(
        HostResources {
            cpu: if cpu <= 0xffff_ffff {
                cpu as u32
            } else {
                0xffff_ffff
            },
            memory_bytes,
        },
    )
}

/// Identifying facts about the worker's OS and agent build, reported at
/// registration for fleet visibility (agent version, OS, arch, hostname).
#[derive(Debug, PartialEq, Eq)]
pub struct SystemInfo {
    pub agent_version: String,
    pub os: String,
    pub arch: String,
    pub hostname: String,
}

/// A trimmed output, or `default` where there is none.
pub open spec fn output_or(output: Option<Seq<char>>, default: Seq<char>) -> Seq<char> {
    match output {
        Some(s) => text::trimmed(s),
        None => default,
    }
}

fn trimmed_or(output: &Option<String>, default: &str) -> (r: String)
    ensures
        r@ == output_or(output.deep_view(), default@),
{
    match output {
        Some(s) => text::trim(s),
        None => default.to_owned(),
    }
}

/// System info for registration, from what `sysctl` prints for `kern.osproductversion`,
/// `hw.machine` and `kern.hostname`. Best-effort: a field that cannot be read falls back
/// to a placeholder rather than aborting a worker's registration.
pub fn detect_system_info(
    agent_version: &str,
    osproductversion: &Option<String>,
    machine: &Option<String>,
    hostname: &Option<String>,
) -> (r: SystemInfo)
    ensures
        r.agent_version@ == agent_version@,
        r.os@ == match osproductversion {
            Some(v) => "macOS "@ + text::trimmed(v@),
            None => "macOS"@,
        },
        r.arch@ == output_or(machine.deep_view(), "unknown"@),
        r.hostname@ == output_or(hostname.deep_view(), "unknown"@),
{
    SystemInfo {
        agent_version: agent_version.to_owned(),
        os: match osproductversion {
            Some(v) => text::cat2("macOS ", &text::trim(v)),
            None => "macOS".to_owned(),
        },
        arch: trimmed_or(machine, "unknown"),
        hostname: trimmed_or(hostname, "unknown"),
    }
}

// ---------------------------------------------------------------------------
// Capacity
// ---------------------------------------------------------------------------

/// Why capacity is rejected.
#[derive(Debug, Clone, Copy, PartialEq, Eq, Structural)]
pub enum CapacityError {
    NoCpu,
    TooManyCores { cores: u32, host_cores: u32 },
    NoMemory,
    TooMuchMemory { requested: Memory, available: Memory },
}

/// The text of a capacity error.
pub open spec fn capacity_error_text(e: CapacityError) -> Seq<char> {
    match e {
        CapacityError::NoCpu => "cpu must be at least 1"@,
        CapacityError::TooManyCores { cores, host_cores } => "requested "@ + text::decimal(
            cores as nat,
        ) + " cores but machine has "@ + text::decimal(host_cores as nat),
        CapacityError::NoMemory => "memory must be greater than 0"@,
        CapacityError::TooMuchMemory { requested, available } => "requested "@
            + memory::size_text(requested@) + " memory but machine has "@ + memory::size_text(
            available@,
        ),
    }
}

impl CapacityError {
    /// The text of the error.
    pub fn message(&self) -> (r: String)
        ensures
            r@ == capacity_error_text(*self),
    {
        match self {
            CapacityError::NoCpu => "cpu must be at least 1".to_owned(),
            CapacityError::TooManyCores { cores, host_cores } => text::cat4(
                "requested ",
                &text::decimal_text(*cores as u64),
                " cores but machine has ",
                &text::decimal_text(*host_cores as u64),
            ),
            CapacityError::NoMemory => "memory must be greater than 0".to_owned(),
            CapacityError::TooMuchMemory { requested, available } => text::cat4(
                "requested ",
                &requested.render(),
                " memory but machine has ",
                &available.render(),
            ),
        }
    }
}

/// Whether capacity is more than nothing and no more than the host has.
pub open spec fn fits_host(cpu: u32, memory: Memory, host: HostResources) -> bool {
    0 < cpu <= host.cpu && 0 < memory@ <= host.memory_bytes
}

/// What is wrong with a capacity, if something is: the cores are looked at before the
/// memory.
pub open spec fn capacity_problem(cpu: u32, memory: Memory, host: HostResources) -> Option<
    Seq<char>,
> {
    if cpu == 0 {
        Some("cpu must be at least 1"@)
    } else if cpu > host.cpu {
        Some(
            "requested "@ + text::decimal(cpu as nat) + " cores but machine has "@ + text::decimal(
                host.cpu as nat,
            ),
        )
    } else if memory@ == 0 {
        Some("memory must be greater than 0"@)
    } else if memory@ > host.memory_bytes {
        Some(
            "requested "@ + memory::size_text(memory@) + " memory but machine has "@
                + memory::size_text(host.memory_bytes),
        )
    } else {
        None
    }
}

/// Reject capacity that exceeds the physical host or is degenerate. The cores are looked
/// at before the memory.
pub fn validate_capacity(cpu: u32, memory: Memory, host: HostResources) -> (r: Result<
    (),
    CapacityError,
>)
    ensures
        r is Ok <==> fits_host(cpu, memory, host),
        match r {
            Ok(_) => capacity_problem(cpu, memory, host) is None,
            Err(e) => capacity_problem(cpu, memory, host) == Some(capacity_error_text(e)),
        },
        match r {
            Ok(_) => true,
            Err(CapacityError::NoCpu) => cpu == 0,
            Err(CapacityError::TooManyCores { cores, host_cores }) => cpu > host.cpu && cores == cpu
                && host_cores == host.cpu,
            Err(CapacityError::NoMemory) => 0 < cpu <= host.cpu && memory@ == 0,
            Err(CapacityError::TooMuchMemory { requested, available }) => 0 < cpu <= host.cpu
                && memory@ > host.memory_bytes && requested == memory && available@
                == host.memory_bytes,
        },
{
    if cpu == 0 {
        return Err(CapacityError::NoCpu);
    }
    if cpu > host.cpu {
        return Err(CapacityError::TooManyCores { cores: cpu, host_cores: host.cpu });
    }
    let want: u64 = memory.bytes();
    if want == 0 {
        return Err(CapacityError::NoMemory);
    }
    if want > host.memory_bytes {
        return Err(
            CapacityError::TooMuchMemory {
                requested: memory,
                available: Memory::from_bytes(host.memory_bytes),
            },
        );
    }
    Ok(())
}

/// A host with at least as much takes what a smaller one takes, and capacity within a
/// capacity that fits, fits too.
pub proof fn law_capacity_is_monotone(
    cpu: u32,
    memory: Memory,
    host: HostResources,
    less_cpu: u32,
    less_memory: Memory,
    larger: HostResources,
)
    requires
        fits_host(cpu, memory, host),
        0 < less_cpu <= cpu,
        0 < less_memory@ <= memory@,
        host.cpu <= larger.cpu,
        host.memory_bytes <= larger.memory_bytes,
    ensures
        fits_host(less_cpu, less_memory, larger),
{
}

// ---------------------------------------------------------------------------
// The server's address
// ---------------------------------------------------------------------------

/// The characters before the first `/` or `?`.
pub open spec fn authority(s: Seq<char>) -> Seq<char>
    decreases s.len(),
{
    if s.len() == 0 || s[0] == '/' || s[0] == '?' {
        Seq::empty()
    } else {
        seq![s[0]] + authority(s.skip(1))
    }
}

/// The `host:port` of a server URL, the port by its scheme where it names none.
pub open spec fn host_port(server: Seq<char>) -> Option<Seq<char>> {
    match text::first_at(server, "://"@) {
        Some(i) => {
            let a = authority(server.skip(i + 3));
            if a.len() == 0 {
                None
            } else if a.contains(':') {
                Some(a)
            } else if server.take(i) == "https"@ {
                Some(a + ":443"@)
            } else {
                Some(a + ":80"@)
            }
        },
        None => None,
    }
}

/// The characters of `s` before the first `/` or `?`.
fn authority_of(s: &str) -> (r: String)
    ensures
        r@ == authority(s@),
{
    let cs = text::chars_of(s);
    let mut end: usize = 0;
    assert(s@.skip(0) =~= s@);
    assert(authority(s@) =~= s@.take(0) + authority(s@.skip(0)));
    while end < cs.len() && cs[end] != '/' && cs[end] != '?'
        invariant
            cs@ == s@,
            end <= cs@.len(),
            authority(s@) == s@.take(end as int) + authority(s@.skip(end as int)),
        decreases cs@.len() - end,
    {
        proof {
            let k = end as int;
            assert(s@.skip(k)[0] == cs@[k]);
            assert(s@.skip(k).skip(1) =~= s@.skip(k + 1));
            assert(s@.take(k + 1) =~= s@.take(k).push(s@[k]));
            assert(authority(s@) =~= s@.take(k + 1) + authority(s@.skip(k + 1)));
        }
        end += 1;
    }
    let r = text::string_of(&cs, 0, end);
    proof {
        if end < cs@.len() {
            assert(s@.skip(end as int)[0] == cs@[end as int]);
        }
        assert(r@ =~= s@.take(end as int));
        assert(authority(s@) =~= r@);
    }
    r
}

fn has_char(s: &str, c: char) -> (r: bool)
    ensures
        r == s@.contains(c),
{
    let cs = text::chars_of(s);
    for i in 0..cs.len()
        invariant
            cs@ == s@,
            forall|k: int| 0 <= k < i ==> cs@[k] != c,
    {
        if cs[i] == c {
            assert(s@[i as int] == c);
            return true;
        }
    }
    false
}

/// Split `http://host:port/path` into `host:port`, defaulting the port by
/// scheme. Deliberately tiny: the value comes from this worker's own config,
/// not from the network.
pub fn server_host_port(server: &str) -> (r: Option<String>)
    ensures
        r.deep_view() == host_port(server@),
{
    proof {
        reveal_strlit("://");
        assert("://"@.len() == 3);
    }
    let i: usize = match text::find(server, "://") {
        Some(i) => i,
        None => {
            return None;
        },
    };
    let cs = text::chars_of(server);
    let scheme = text::string_of(&cs, 0, i);
    assert(i + 3 <= cs.len());
    let rest = text::string_of(&cs, i + 3, cs.len());
    assert(scheme@ =~= server@.take(i as int));
    assert(rest@ =~= server@.skip(i + 3));
    let found = authority_of(&rest);
    if found.as_str().is_empty() {
        return None;
    }
    if has_char(&found, ':') {
        return Some(found);
    }
    if text::same(&scheme, "https") {
        Some(text::cat2(&found, ":443"))
    } else {
        Some(text::cat2(&found, ":80"))
    }
}

// ---------------------------------------------------------------------------
// Registration
// ---------------------------------------------------------------------------

/// The registration body a worker publishes about itself.
pub open spec fn registration_of(
    cfg: WorkerConfig,
    runtime_version: Seq<char>,
    sys: SystemInfo,
    address: Option<Seq<char>>,
) -> JsonView {
    JsonView::Object(
        seq![
            ("name"@, JsonView::Text(cfg.node@)),
            (
                "capacity"@,
                JsonView::Object(
                    seq![
                        ("cpu"@, JsonView::Number(NumberView::PosInt(cfg.cpu as u64))),
                        ("memoryBytes"@, JsonView::Number(NumberView::PosInt(cfg.memory@))),
                    ],
                ),
            ),
            (
                "addresses"@,
                JsonView::Array(
                    match address {
                        Some(a) => seq![JsonView::Text(a)],
                        None => Seq::empty(),
                    },
                ),
            ),
            ("containerRuntimeVersion"@, JsonView::Text(runtime_version)),
            (
                "nodeInfo"@,
                JsonView::Object(
                    seq![
                        ("agentVersion"@, JsonView::Text(sys.agent_version@)),
                        ("os"@, JsonView::Text(sys.os@)),
                        ("arch"@, JsonView::Text(sys.arch@)),
                        ("hostname"@, JsonView::Text(sys.hostname@)),
                    ],
                ),
            ),
        ],
    )
}

fn member(key: &str, value: Json) -> (r: (String, Json))
    ensures
        r.0@ == key@,
        r.1@ == value@,
{
    (key.to_owned(), value)
}

/// The registration body a worker publishes about itself. Without an address a container
/// here is reachable from nowhere, and no endpoint for it is ever published.
pub fn registration(
    cfg: &WorkerConfig,
    runtime_version: &str,
    sys: &SystemInfo,
    address: &Option<String>,
) -> (r: Json)
    ensures
        r@ == registration_of(*cfg, runtime_version@, *sys, address.deep_view()),
{
    let ghost want = registration_of(*cfg, runtime_version@, *sys, address.deep_view())->Object_0;
    let cpu = Json::Number(Number::PosInt(cfg.cpu as u64));
    let bytes = Json::Number(Number::PosInt(cfg.memory.bytes()));
    assert(cpu@ == JsonView::Number(NumberView::PosInt(cfg.cpu as u64)));
    assert(bytes@ == JsonView::Number(NumberView::PosInt(cfg.memory@)));
    let capacity = Json::Object(vec![member("cpu", cpu), member("memoryBytes", bytes)]);
    assert(capacity@->Object_0 =~= want[1].1->Object_0);
    let addresses = match address {
        Some(a) => {
            let item = Json::Text(a.clone());
            assert(item@ == JsonView::Text(a@));
            let r = Json::Array(vec![item]);
            assert(r@->Array_0 =~= want[2].1->Array_0);
            r
        },
        None => {
            let r = Json::Array(vec![]);
            assert(r@->Array_0 =~= want[2].1->Array_0);
            r
        },
    };
    let version = Json::Text(sys.agent_version.clone());
    let os = Json::Text(sys.os.clone());
    let arch = Json::Text(sys.arch.clone());
    let hostname = Json::Text(sys.hostname.clone());
    let info = Json::Object(
        vec![
            member("agentVersion", version),
            member("os", os),
            member("arch", arch),
            member("hostname", hostname),
        ],
    );
    assert(info@->Object_0 =~= want[4].1->Object_0);
    let name = Json::Text(cfg.node.clone());
    let runtime = Json::Text(runtime_version.to_owned());
    let r = Json::Object(
        vec![
            member("name", name),
            member("capacity", capacity),
            member("addresses", addresses),
            member("containerRuntimeVersion", runtime),
            member("nodeInfo", info),
        ],
    );
    assert(r@->Object_0 =~= want);
    r
}

// ---------------------------------------------------------------------------
// What holds of every host
// ---------------------------------------------------------------------------

/// Capacity is accepted exactly where it is something and the machine has it: the whole
/// machine is, one core more is not, and neither is one byte more.
pub proof fn law_capacity_is_within_the_host(cpu: u32, memory: Memory, host: HostResources)
    ensures
        fits_host(cpu, memory, host) <==> capacity_problem(cpu, memory, host) is None,
        cpu > 0 && memory@ > 0 && cpu == host.cpu && memory@ == host.memory_bytes ==> fits_host(
            cpu,
            memory,
            host,
        ),
        cpu as int == host.cpu + 1 || memory@ as int == host.memory_bytes + 1 || cpu == 0
            || memory@ == 0 ==> !fits_host(cpu, memory, host),
{
}

/// A rejected capacity is told from what is wrong with it first: the cores, then the memory,
/// each with what was asked for and what there is.
pub proof fn law_capacity_problems_name_the_cause(cpu: u32, memory: Memory, host: HostResources)
    ensures
        cpu > host.cpu ==> (capacity_problem(cpu, memory, host) matches Some(problem)
            && text::ends_with(problem, text::decimal(host.cpu as nat)) && text::contains(
            problem,
            text::decimal(cpu as nat) + " cores"@,
        )),
        0 < cpu <= host.cpu && memory@ > host.memory_bytes ==> (capacity_problem(
            cpu,
            memory,
            host,
        ) matches Some(problem) && text::ends_with(problem, memory::size_text(host.memory_bytes))
            && text::contains(problem, memory::size_text(memory@) + " memory"@)),
        cpu == 0 ==> capacity_problem(cpu, memory, host) == Some("cpu must be at least 1"@),
        0 < cpu <= host.cpu && memory@ == 0 ==> capacity_problem(cpu, memory, host) == Some(
            "memory must be greater than 0"@,
        ),
{
    let none = Seq::<char>::empty();
    reveal_strlit(" cores");
    reveal_strlit(" cores but machine has ");
    reveal_strlit(" but machine has ");
    reveal_strlit(" memory");
    reveal_strlit(" memory but machine has ");
    assert(" cores but machine has "@ =~= " cores"@ + " but machine has "@);
    assert(" memory but machine has "@ =~= " memory"@ + " but machine has "@);
    let asked = text::decimal(cpu as nat);
    let there = text::decimal(host.cpu as nat);
    let told = "requested "@ + asked + " cores but machine has "@ + there;
    text::law_parts_of_a_string("requested "@ + asked + " cores but machine has "@, there, none);
    assert(told =~= "requested "@ + (asked + " cores"@) + (" but machine has "@ + there));
    text::law_parts_of_a_string("requested "@, asked + " cores"@, " but machine has "@ + there);
    let asked_bytes = memory::size_text(memory@);
    let there_bytes = memory::size_text(host.memory_bytes);
    let told_bytes = "requested "@ + asked_bytes + " memory but machine has "@ + there_bytes;
    text::law_parts_of_a_string(
        "requested "@ + asked_bytes + " memory but machine has "@,
        there_bytes,
        none,
    );
    assert(told_bytes =~= "requested "@ + (asked_bytes + " memory"@) + (" but machine has "@
        + there_bytes));
    text::law_parts_of_a_string(
        "requested "@,
        asked_bytes + " memory"@,
        " but machine has "@ + there_bytes,
    );
}

/// The text of a capacity error is that of the problem it stands for.
pub proof fn law_capacity_errors_tell_the_problem(
    cpu: u32,
    memory: Memory,
    host: HostResources,
    available: Memory,
)
    requires
        available@ == host.memory_bytes,
    ensures
        cpu == 0 ==> capacity_problem(cpu, memory, host) == Some(
            capacity_error_text(CapacityError::NoCpu),
        ),
        cpu > host.cpu ==> capacity_problem(cpu, memory, host) == Some(
            capacity_error_text(
                CapacityError::TooManyCores { cores: cpu, host_cores: host.cpu },
            ),
        ),
        0 < cpu <= host.cpu && memory@ == 0 ==> capacity_problem(cpu, memory, host) == Some(
            capacity_error_text(CapacityError::NoMemory),
        ),
        0 < cpu <= host.cpu && memory@ > host.memory_bytes ==> capacity_problem(cpu, memory, host)
            == Some(
            capacity_error_text(CapacityError::TooMuchMemory { requested: memory, available }),
        ),
{
}

/// An output gives a number exactly where, white space aside, it is a natural number that fits
/// 64 bits, and it gives that number.
pub proof fn law_outputs_give_their_number(output: Seq<char>, n: u64)
    ensures
        text::trimmed(output) == text::decimal(n as nat) ==> sysctl_number(output) == Some(n),
        sysctl_number(output) == Some(n) ==> text::natural_value(text::trimmed(output)) == Some(
            n as nat,
        ),
        text::natural_value(text::trimmed(output)) is None ==> sysctl_number(output) is None,
{
    text::lemma_decimal(n as nat);
}

/// What could be read is reported without the white space around it, and only what could not
/// be read falls back.
pub proof fn law_only_what_is_missing_falls_back(
    output: Option<Seq<char>>,
    default: Seq<char>,
    other: Seq<char>,
)
    ensures
        output is None ==> output_or(output, default) == default,
        output matches Some(s) ==> output_or(output, default) == text::trimmed(s),
        output is Some ==> output_or(output, default) == output_or(output, other),
{
}

/// The authority of an address ends before its first `/` or `?`, or where the address ends.
pub proof fn law_authority_ends_at_the_path(a: Seq<char>, rest: Seq<char>)
    requires
        forall|i: int| 0 <= i < a.len() ==> #[trigger] a[i] != '/' && a[i] != '?',
        rest.len() > 0 ==> rest[0] == '/' || rest[0] == '?',
    ensures
        authority(a + rest) == a,
    decreases a.len(),
{
    if a.len() == 0 {
        assert(a + rest =~= rest);
        assert(authority(rest) =~= a);
    } else {
        let tail = a.skip(1);
        assert forall|i: int| 0 <= i < tail.len() implies #[trigger] tail[i] != '/' && tail[i]
            != '?' by {
            assert(tail[i] == a[i + 1]);
        }
        law_authority_ends_at_the_path(tail, rest);
        assert((a + rest).skip(1) =~= tail + rest);
        assert((a + rest)[0] == a[0]);
        assert(authority(a + rest) =~= a);
    }
}

/// A server is reached at the port that its URL names, and at that of its scheme where it
/// names none: 443 for https, else 80. Path and query do not matter.
pub proof fn law_ports_default_by_scheme(
    server: Seq<char>,
    i: int,
    name: Seq<char>,
    rest: Seq<char>,
)
    requires
        text::first_at(server, "://"@) == Some(i),
        server.skip(i + 3) == name + rest,
        name.len() > 0,
        forall|k: int| 0 <= k < name.len() ==> #[trigger] name[k] != '/' && name[k] != '?',
        rest.len() > 0 ==> rest[0] == '/' || rest[0] == '?',
    ensures
        name.contains(':') ==> host_port(server) == Some(name),
        !name.contains(':') && server.take(i) == "https"@ ==> host_port(server) == Some(
            name + ":443"@,
        ),
        !name.contains(':') && server.take(i) != "https"@ ==> host_port(server) == Some(
            name + ":80"@,
        ),
{
    law_authority_ends_at_the_path(name, rest);
}

/// A text without a scheme, or without a host behind it, has no address.
pub proof fn law_no_host_has_no_address(server: Seq<char>, i: int, rest: Seq<char>)
    requires
        rest.len() > 0 ==> rest[0] == '/' || rest[0] == '?',
    ensures
        !text::contains(server, "://"@) ==> host_port(server) is None,
        text::first_at(server, "://"@) == Some(i) && server.skip(i + 3) == rest ==> host_port(
            server,
        ) is None,
{
    text::law_strings_take_apart(server, "://"@);
    law_authority_ends_at_the_path(Seq::empty(), rest);
    assert(Seq::<char>::empty() + rest =~= rest);
}

/// A registration gives back what the worker is: its name, its capacity in cores and bytes,
/// its address if it has one, the runtime's version, and what its system is.
pub proof fn law_registrations_give_back_the_worker(
    cfg: WorkerConfig,
    runtime_version: Seq<char>,
    sys: SystemInfo,
    address: Option<Seq<char>>,
)
    ensures
        ({
            let body = registration_of(cfg, runtime_version, sys, address);
            let capacity = json::get(body, "capacity"@);
            let info = json::get(body, "nodeInfo"@);
            &&& json::get(body, "name"@) == Some(JsonView::Text(cfg.node@))
            &&& capacity is Some
            &&& json::get(capacity->0, "cpu"@) == Some(
                JsonView::Number(NumberView::PosInt(cfg.cpu as u64)),
            )
            &&& json::get(capacity->0, "memoryBytes"@) == Some(
                JsonView::Number(NumberView::PosInt(cfg.memory@)),
            )
            &&& json::get(body, "addresses"@) matches Some(JsonView::Array(all)) && match address {
                Some(a) => all.len() == 1 && all[0] == JsonView::Text(a),
                None => all.len() == 0,
            }
            &&& json::get(body, "containerRuntimeVersion"@) == Some(
                JsonView::Text(runtime_version),
            )
            &&& info is Some
            &&& json::get(info->0, "agentVersion"@) == Some(JsonView::Text(sys.agent_version@))
            &&& json::get(info->0, "os"@) == Some(JsonView::Text(sys.os@))
            &&& json::get(info->0, "arch"@) == Some(JsonView::Text(sys.arch@))
            &&& json::get(info->0, "hostname"@) == Some(JsonView::Text(sys.hostname@))
        }),
{
    reveal_strlit("name");
    reveal_strlit("capacity");
    reveal_strlit("addresses");
    reveal_strlit("containerRuntimeVersion");
    reveal_strlit("nodeInfo");
    reveal_strlit("cpu");
    reveal_strlit("memoryBytes");
    reveal_strlit("agentVersion");
    reveal_strlit("os");
    reveal_strlit("arch");
    reveal_strlit("hostname");
    assert("name"@.len() == 4 && "capacity"@.len() == 8 && "addresses"@.len() == 9
        && "containerRuntimeVersion"@.len() == 23 && "nodeInfo"@.len() == 8);
    assert("capacity"@[0] == 'c' && "nodeInfo"@[0] == 'n');
    assert("cpu"@.len() == 3 && "memoryBytes"@.len() == 11);
    assert("agentVersion"@.len() == 12 && "os"@.len() == 2 && "arch"@.len() == 4
        && "hostname"@.len() == 8);
    let body = registration_of(cfg, runtime_version, sys, address)->Object_0;
    json::lemma_position_is(body, "name"@, 0);
    json::lemma_position_is(body, "capacity"@, 1);
    json::lemma_position_is(body, "addresses"@, 2);
    json::lemma_position_is(body, "containerRuntimeVersion"@, 3);
    json::lemma_position_is(body, "nodeInfo"@, 4);
    let capacity = body[1].1->Object_0;
    json::lemma_position_is(capacity, "cpu"@, 0);
    json::lemma_position_is(capacity, "memoryBytes"@, 1);
    let info = body[4].1->Object_0;
    json::lemma_position_is(info, "agentVersion"@, 0);
    json::lemma_position_is(info, "os"@, 1);
    json::lemma_position_is(info, "arch"@, 2);
    json::lemma_position_is(info, "hostname"@, 3);
}

} // verus!
