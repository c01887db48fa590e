use vstd::prelude::*;

use crate::commit::{spec_trim, trim};
use crate::parse::{is_digit, lemma_decimal_digits, lemma_decimal_reads_back, parse_i32, spec_parse_i32};
use crate::text::{chars_of, lemma_find_seq, opt_string_view, spec_decimal, spec_split_once, spec_split_spaces, split_once, split_spaces, text_equals};

verus! {

broadcast use vstd::string::group_string_axioms;

/// A volume mount in a container-creation request.
#[derive(Clone, Debug)]
pub struct Mount {
    pub destination: Option<String>,
    pub options: Option<Vec<String>>,
    pub source: Option<String>,
    pub _type: Option<String>,
}


/// The mount options of a volume: read-write or read-only, then the SELinux
/// relabelling option when one is chosen.
pub open spec fn spec_mount_options(writable: bool, selinux: Seq<char>) -> Seq<Seq<char>> {
    let access = if writable { "rw"@ } else { "ro"@ };
    if selinux.len() == 0 {
        seq![access]
    } else {
        seq![access, selinux]
    }
}

/// The bind mount of a host path into the container.
pub fn bind_mount(container_path: &str, host_path: &str, writable: bool, selinux: &str) -> (mount: Mount)
    ensures
        opt_string_view(mount.destination) == Some(container_path@),
        opt_string_view(mount.source) == Some(host_path@),
        opt_string_view(mount._type) == Some("bind"@),
        mount.options is Some,
        mount.options->0@.len() == spec_mount_options(writable, selinux@).len(),
        forall|i: int| 0 <= i < mount.options->0@.len() ==> #[trigger] mount.options->0@[i]@ == spec_mount_options(writable, selinux@)[i],
{
    let mut options: Vec<String> = Vec::new();
    options.push(String::from_str(if writable { "rw" } else { "ro" }));
    if !selinux.is_empty() {
        options.push(String::from_str(selinux));
    }
    Mount {
        destination: Some(String::from_str(container_path)),
        options: Some(options),
        source: Some(String::from_str(host_path)),
        _type: Some(String::from_str("bind")),
    }
}

/// The transport protocol of a port mapping.
#[derive(Clone, Copy, Debug, PartialEq, Eq, Structural)]
pub enum PortProtocol {
    Tcp,
    Udp,
}

/// What an exposed port of an image (such as `8080/tcp`) sets on a new port
/// mapping: the host and container port when the number parses, and the
/// protocol when it is one of the two known ones.
#[derive(Clone, Copy, Debug, PartialEq, Eq, Structural)]
pub struct ExposedPort {
    pub port: Option<i32>,
    pub protocol: Option<PortProtocol>,
}

/// The port and protocol pieces of an exposed port, split at `/` as
/// `str::split_terminator('/')` splits it (a trailing empty piece is
/// dropped): the first piece and, where there is one, the second.
pub open spec fn spec_exposed_pieces(s: Seq<char>) -> (Option<Seq<char>>, Option<Seq<char>>) {
    if s.len() == 0 {
        (None, None)
    } else {
        match spec_split_once(s, "/"@) {
            None => (Some(s), None),
            Some((port, rest)) => if rest.len() == 0 {
                (Some(port), None)
            } else {
                match spec_split_once(rest, "/"@) {
                    Some((protocol, _)) => (Some(port), Some(protocol)),
                    None => (Some(port), Some(rest)),
                }
            },
        }
    }
}

pub open spec fn spec_protocol(piece: Seq<char>) -> Option<PortProtocol> {
    if piece == "tcp"@ {
        Some(PortProtocol::Tcp)
    } else if piece == "udp"@ {
        Some(PortProtocol::Udp)
    } else {
        None
    }
}

/// The settings that an exposed port gives.
pub open spec fn spec_exposed_port(s: Seq<char>) -> ExposedPort {
    let (port, protocol) = spec_exposed_pieces(s);
    ExposedPort {
        port: match port {
            Some(p) => spec_parse_i32(p),
            None => None,
        },
        protocol: match protocol {
            Some(p) => spec_protocol(p),
            None => None,
        },
    }
}

fn protocol_of(piece: &str) -> (protocol: Option<PortProtocol>)
    ensures
        protocol == spec_protocol(piece@),
{
    proof {
        reveal_strlit("tcp");
        reveal_strlit("udp");
    }
    let chars = chars_of(piece);
    if chars.len() == 3 && chars[0] == 't' && chars[1] == 'c' && chars[2] == 'p' {
        assert(piece@ =~= "tcp"@);
        Some(PortProtocol::Tcp)
    } else if chars.len() == 3 && chars[0] == 'u' && chars[1] == 'd' && chars[2] == 'p' {
        assert(piece@ =~= "udp"@);
        Some(PortProtocol::Udp)
    } else {
        assert(piece@ != "tcp"@ && piece@ != "udp"@) by {
            if piece@ == "tcp"@ {
                assert(piece@[0] == 't' && piece@[1] == 'c' && piece@[2] == 'p');
            }
            if piece@ == "udp"@ {
                assert(piece@[0] == 'u' && piece@[1] == 'd' && piece@[2] == 'p');
            }
        }
        None
    }
}

/// Reads an exposed port of an image configuration, such as `8080/tcp`.
pub fn exposed_port(exposed: &str) -> (settings: ExposedPort)
    ensures
        settings == spec_exposed_port(exposed@),
{
    if exposed.is_empty() {
        return ExposedPort { port: None, protocol: None };
    }
    match split_once(exposed, "/") {
        None => ExposedPort { port: parse_i32(exposed), protocol: None },
        Some((port, rest)) => {
            let port = parse_i32(port.as_str());
            if rest.as_str().is_empty() {
                ExposedPort { port, protocol: None }
            } else {
                let protocol = match split_once(rest.as_str(), "/") {
                    Some((piece, _)) => protocol_of(piece.as_str()),
                    None => protocol_of(rest.as_str()),
                };
                ExposedPort { port, protocol }
            }
        },
    }
}

/// An exposed port written as a port number, a slash and a protocol's
/// name reads back as that port and that protocol; a port number alone
/// reads back as the port with no protocol.
pub proof fn lemma_exposed_port_reads_back(port: i32, protocol: PortProtocol)
    requires
        port >= 0,
    ensures
        spec_exposed_port(spec_decimal(port as nat) + "/"@ + protocol.name_spec()) == (ExposedPort {
            port: Some(port),
            protocol: Some(protocol),
        }),
        spec_exposed_port(spec_decimal(port as nat)) == (ExposedPort { port: Some(port), protocol: None }),
{
    reveal_strlit("/");
    reveal_strlit("tcp");
    reveal_strlit("udp");
    let d = spec_decimal(port as nat);
    let p = protocol.name_spec();
    let slash = "/"@;
    lemma_decimal_digits(port as nat);
    lemma_decimal_reads_back(port);
    assert forall|j: int| 0 <= j < d.len() implies #[trigger] d.subrange(j, j + 1) != slash by {
        assert(is_digit(d[j]));
        assert(d.subrange(j, j + 1)[0] == d[j]);
    }
    lemma_find_seq(d, slash, d.len() as int);
    let s = d + slash + p;
    assert forall|j: int| 0 <= j < d.len() implies #[trigger] s.subrange(j, j + 1) != slash by {
        assert(is_digit(d[j]));
        assert(s.subrange(j, j + 1)[0] == d[j]);
    }
    assert(s.subrange(d.len() as int, d.len() as int + 1) =~= slash);
    lemma_find_seq(s, slash, d.len() as int);
    assert(s.take(d.len() as int) =~= d);
    assert(s.skip(d.len() as int + 1) =~= p);
    assert forall|j: int| 0 <= j < p.len() implies #[trigger] p.subrange(j, j + 1) != slash by {
        assert(p.subrange(j, j + 1)[0] == p[j]);
    }
    lemma_find_seq(p, slash, p.len() as int);
    assert("udp"@ != "tcp"@) by {
        assert("udp"@[0] != "tcp"@[0]);
    }
}

/// Creation stays disabled until the container has a name.
pub fn create_enabled(name: &str) -> (enabled: bool)
    ensures
        enabled <==> name@.len() > 0,
{
    !name.is_empty()
}

/// `base` raised to `exp`.
pub open spec fn power(base: int, exp: nat) -> int
    decreases exp,
{
    if exp == 0 {
        1
    } else {
        base * power(base, (exp - 1) as nat)
    }
}

proof fn lemma_power_grows(base: int, exp: nat)
    requires
        base >= 1,
    ensures
        power(base, exp) >= 1,
        power(base, exp + 1) >= power(base, exp),
    decreases exp,
{
    if exp > 0 {
        lemma_power_grows(base, (exp - 1) as nat);
    }
    assert(power(base, exp + 1) == base * power(base, exp));
    assert(base * power(base, exp) >= power(base, exp)) by (nonlinear_arith)
        requires
            base >= 1,
            power(base, exp) >= 1,
    ;
}

/// Computes `base` to the power `exp` in `i64`.
fn power_i64(base: i64, exp: u32) -> (result: i64)
    requires
        base >= 1,
        power(base as int, exp as nat) <= i64::MAX,
    ensures
        result == power(base as int, exp as nat),
{
    let mut result: i64 = 1;
    let mut k: u32 = 0;
    while k < exp
        invariant
            k <= exp,
            base >= 1,
            result == power(base as int, k as nat),
            power(base as int, exp as nat) <= i64::MAX,
        decreases exp - k,
    {
        proof {
            lemma_power_monotone(base as int, (k + 1) as nat, exp as nat);
            lemma_power_grows(base as int, (k + 1) as nat);
            assert(power(base as int, (k + 1) as nat) == base * power(base as int, k as nat));
            assert(1 <= power(base as int, (k + 1) as nat) <= i64::MAX);
            assert(result * base == base * power(base as int, k as nat)) by (nonlinear_arith)
                requires
                    result == power(base as int, k as nat),
            ;
        }
        result = result * base;
        k = k + 1;
    }
    result
}

proof fn lemma_power_monotone(base: int, a: nat, b: nat)
    requires
        base >= 1,
        a <= b,
    ensures
        power(base, a) <= power(base, b),
    decreases b - a,
{
    if a < b {
        lemma_power_monotone(base, a, (b - 1) as nat);
        lemma_power_grows(base, (b - 1) as nat);
    }
}

/// The memory limit in bytes: the entered value times 1000 to the power of
/// the chosen unit's position plus one (kilobytes first).
pub fn memory_limit(value: i64, unit: u32) -> (limit: i64)
    requires
        unit < u32::MAX,
        power(1000, (unit + 1) as nat) <= i64::MAX,
        i64::MIN <= value * power(1000, (unit + 1) as nat) <= i64::MAX,
    ensures
        limit == value * power(1000, (unit + 1) as nat),
{
    let factor = power_i64(1000, unit + 1);
    value * factor
}

/// The memory limit of the older creation form: the value times 1024 to the
/// power of the chosen unit's position plus one, or times one when no unit is
/// chosen.
pub fn memory_limit_binary(value: i64, unit: Option<u32>) -> (limit: i64)
    requires
        unit is Some ==> unit->0 < u32::MAX,
        power(1024, (match unit { Some(u) => u + 1, None => 0 }) as nat) <= i64::MAX,
        i64::MIN <= value * power(1024, (match unit { Some(u) => u + 1, None => 0 }) as nat) <= i64::MAX,
    ensures
        limit == value * power(1024, (match unit { Some(u) => u + 1, None => 0 }) as nat),
{
    let exp: u32 = match unit {
        Some(u) => u + 1,
        None => 0,
    };
    let factor = power_i64(1024, exp);
    value * factor
}

/// The command of a new container: the entered command followed by its
/// arguments, or none when no command is entered.
pub fn container_command(cmd: &str, args: &Vec<String>) -> (command: Option<Vec<String>>)
    ensures
        cmd@.len() == 0 ==> command is None,
        cmd@.len() > 0 ==> command is Some && command->0@.len() == args@.len() + 1 && command->0@[0]@ == cmd@
            && forall|i: int| 0 <= i < args@.len() ==> #[trigger] command->0@[i + 1]@ == args@[i]@,
{
    if cmd.is_empty() {
        return None;
    }
    let mut command: Vec<String> = Vec::new();
    command.push(String::from_str(cmd));
    let mut i: usize = 0;
    while i < args.len()
        invariant
            i <= args@.len(),
            command@.len() == i + 1,
            command@[0]@ == cmd@,
            forall|k: int| 0 <= k < i ==> #[trigger] command@[k + 1]@ == args@[k]@,
        decreases args@.len() - i,
    {
        command.push(args[i].clone());
        i = i + 1;
    }
    Some(command)
}

/// The health check of a new container, with its durations in nanoseconds.
#[derive(Clone, Debug)]
pub struct HealthConfig {
    pub interval: i64,
    pub retries: i64,
    pub start_period: i64,
    pub test: Vec<String>,
    pub timeout: i64,
}

pub const NANOS_PER_SECOND: i64 = 1_000_000_000;

/// The health check of a new container: none without a command; otherwise
/// the durations entered in seconds, converted to nanoseconds, and the
/// command split at each space.
pub fn health_config(cmd: &str, interval_secs: i64, retries: i64, start_period_secs: i64, timeout_secs: i64) -> (config: Option<HealthConfig>)
    requires
        i64::MIN <= interval_secs * 1_000_000_000 <= i64::MAX,
        i64::MIN <= start_period_secs * 1_000_000_000 <= i64::MAX,
        i64::MIN <= timeout_secs * 1_000_000_000 <= i64::MAX,
    ensures
        cmd@.len() == 0 ==> config is None,
        cmd@.len() > 0 ==> config is Some && ({
            let c = config->0;
            &&& c.interval == interval_secs * 1_000_000_000
            &&& c.retries == retries
            &&& c.start_period == start_period_secs * 1_000_000_000
            &&& c.timeout == timeout_secs * 1_000_000_000
            &&& c.test@.len() == spec_split_spaces(cmd@).len()
            &&& forall|i: int| 0 <= i < c.test@.len() ==> #[trigger] c.test@[i]@ == spec_split_spaces(cmd@)[i]
        }),
{
    if cmd.is_empty() {
        return None;
    }
    Some(HealthConfig {
        interval: interval_secs * NANOS_PER_SECOND,
        retries,
        start_period: start_period_secs * NANOS_PER_SECOND,
        test: split_spaces(cmd),
        timeout: timeout_secs * NANOS_PER_SECOND,
    })
}

/// A character of the name generator's words: a lowercase letter or a
/// hyphen.
pub open spec fn is_word_char(c: char) -> bool {
    ('a' <= c && c <= 'z') || c == '-'
}

/// A word of the name generator's lists: lowercase letters, possibly joined
/// by single hyphens (as in "well-made"), beginning and ending with a letter.
pub open spec fn is_word(w: Seq<char>) -> bool {
    &&& w.len() > 0
    &&& 'a' <= w[0] && w[0] <= 'z'
    &&& 'a' <= w.last() && w.last() <= 'z'
    &&& forall|i: int| 0 <= i < w.len() ==> is_word_char(#[trigger] w[i])
    &&& forall|i: int| 0 <= i < w.len() - 1 ==> !(#[trigger] w[i] == '-' && w[i + 1] == '-')
}

/// A name as the generator makes it: an adjective, a hyphen and a noun.
pub open spec fn is_generated_name(name: Seq<char>) -> bool {
    exists|adjective: Seq<char>, noun: Seq<char>|
        #![trigger is_word(adjective), is_word(noun)]
        is_word(adjective) && is_word(noun) && name == adjective + "-"@ + noun
}

/// Draws a name from the default generator of the `names` crate, which joins
/// a randomly chosen adjective and noun of its word lists with a hyphen. The
/// contract claims that the generator always yields a name of that form; the
/// words of both lists are lowercase letters joined at most by single
/// hyphens. Which words come is chance and is not stated, nor that they stand
/// in the lists.
#[verifier::external_body]
fn random_name() -> (name: Option<String>)
    ensures
        name is Some,
        is_generated_name(name->0@),
{
    names::Generator::default().next()
}

/// The name that the creation form suggests for a new container: an
/// adjective and a noun of the generator, joined by a hyphen.
pub fn suggested_name() -> (name: String)
    ensures
        is_generated_name(name@),
{
    random_name().unwrap()
}

/// A generated name is never empty and holds a hyphen, so it enables
/// creation.
pub proof fn lemma_generated_name_enables_creation(name: Seq<char>)
    requires
        is_generated_name(name),
    ensures
        name.len() > 0,
        name.contains('-'),
{
    reveal_strlit("-");
    let (adjective, noun) = choose|adjective: Seq<char>, noun: Seq<char>|
        #![trigger is_word(adjective), is_word(noun)]
        is_word(adjective) && is_word(noun) && name == adjective + "-"@ + noun;
    assert(name[adjective.len() as int] == '-');
}

/// What finishing the creation form does.
#[derive(Clone, Debug)]
pub enum FinishPlan {
    /// Pull the image by this reference, then create the container.
    PullAndCreate(String),
    /// Create the container from a local image, shown under this label.
    Create(String),
    /// No image was chosen: report it.
    NoImage,
}

/// Decides how to finish the creation form: an image searched for remotely
/// is pulled; a local image is pulled anew by its first tag when asked to,
/// and otherwise used as it is, labelled by its first tag or its id.
pub fn finish_plan(remote_image: Option<&str>, local_image: Option<(&Vec<String>, &str)>, pull_latest: bool) -> (plan: FinishPlan)
    requires
        remote_image is None && pull_latest ==> match local_image {
            Some((tags, _)) => tags@.len() > 0,
            None => true,
        },
    ensures
        match remote_image {
            Some(reference) => plan matches FinishPlan::PullAndCreate(r) && r@ == reference@,
            None => match local_image {
                Some((tags, id)) => if pull_latest {
                    plan matches FinishPlan::PullAndCreate(r) && r@ == tags@[0]@
                } else if tags@.len() > 0 {
                    plan matches FinishPlan::Create(label) && label@ == tags@[0]@
                } else {
                    plan matches FinishPlan::Create(label) && label@ == id@
                },
                None => plan is NoImage,
            },
        },
{
    match remote_image {
        Some(reference) => FinishPlan::PullAndCreate(String::from_str(reference)),
        None => match local_image {
            Some((tags, id)) => {
                if pull_latest {
                    FinishPlan::PullAndCreate(tags[0].clone())
                } else if tags.len() > 0 {
                    FinishPlan::Create(tags[0].clone())
                } else {
                    FinishPlan::Create(String::from_str(id))
                }
            },
            None => FinishPlan::NoImage,
        },
    }
}

impl PortProtocol {
    /// The protocol's name in a creation request.
    pub fn name(&self) -> (name: &'static str)
        ensures
            name@ == (match self {
                PortProtocol::Tcp => "tcp"@,
                PortProtocol::Udp => "udp"@,
            }),
    {
        match self {
            PortProtocol::Tcp => "tcp",
            PortProtocol::Udp => "udp",
        }
    }
}

/// A port mapping as a creation request carries it.
#[derive(Clone, Debug)]
pub struct PortMappingRequest {
    pub container_port: u16,
    pub host_port: u16,
    pub protocol: String,
}

/// The request for a port mapping of the form: the ports are cut to 16 bits
/// as an `as` conversion cuts them.
pub fn port_mapping_request(container_port: i32, host_port: i32, protocol: PortProtocol) -> (request: PortMappingRequest)
    ensures
        request.container_port == container_port as u16,
        request.host_port == host_port as u16,
        request.protocol@ == protocol.name_spec(),
{
    PortMappingRequest {
        container_port: container_port as u16,
        host_port: host_port as u16,
        protocol: String::from_str(protocol.name()),
    }
}

impl PortProtocol {
    pub open spec fn name_spec(&self) -> Seq<char> {
        match self {
            PortProtocol::Tcp => "tcp"@,
            PortProtocol::Udp => "udp"@,
        }
    }
}

/// The non-empty pieces of a sequence of pieces, in order.
pub open spec fn non_empty(pieces: Seq<Seq<char>>) -> Seq<Seq<char>>
    decreases pieces.len(),
{
    if pieces.len() == 0 {
        Seq::empty()
    } else if pieces.last().len() == 0 {
        non_empty(pieces.drop_last())
    } else {
        non_empty(pieces.drop_last()).push(pieces.last())
    }
}

/// The command of the creation dialog: the entered text without surrounding
/// white space, split at spaces with empty pieces dropped; none when only
/// white space was entered.
pub fn command_parts(text: &str) -> (parts: Option<Vec<String>>)
    ensures
        spec_trim(text@).len() == 0 ==> parts is None,
        spec_trim(text@).len() > 0 ==> parts is Some && parts->0@.len() == non_empty(spec_split_spaces(spec_trim(text@))).len()
            && forall|i: int| 0 <= i < parts->0@.len() ==> #[trigger] parts->0@[i]@ == non_empty(spec_split_spaces(spec_trim(text@)))[i],
{
    let trimmed = trim(text);
    if trimmed.as_str().is_empty() {
        return None;
    }
    let pieces = split_spaces(trimmed.as_str());
    let ghost all = spec_split_spaces(trimmed@);
    let mut parts: Vec<String> = Vec::new();
    let mut i: usize = 0;
    assert(all.take(0) =~= Seq::<Seq<char>>::empty());
    while i < pieces.len()
        invariant
            i <= pieces@.len(),
            pieces@.len() == all.len(),
            forall|k: int| 0 <= k < pieces@.len() ==> #[trigger] pieces@[k]@ == all[k],
            parts@.len() == non_empty(all.take(i as int)).len(),
            forall|k: int| 0 <= k < parts@.len() ==> #[trigger] parts@[k]@ == non_empty(all.take(i as int))[k],
        decreases pieces@.len() - i,
    {
        proof {
            let t = all.take(i + 1);
            assert(t.drop_last() =~= all.take(i as int));
            assert(t.last() == all[i as int]);
        }
        if !pieces[i].as_str().is_empty() {
            parts.push(pieces[i].clone());
        }
        i = i + 1;
    }
    assert(all.take(all.len() as int) =~= all);
    Some(parts)
}

/// The test of the creation dialog's health check: the entered command
/// without surrounding white space, split at each space; none when only
/// white space was entered.
pub fn health_test(text: &str) -> (test: Option<Vec<String>>)
    ensures
        spec_trim(text@).len() == 0 ==> test is None,
        spec_trim(text@).len() > 0 ==> test is Some && test->0@.len() == spec_split_spaces(spec_trim(text@)).len()
            && forall|i: int| 0 <= i < test->0@.len() ==> #[trigger] test->0@[i]@ == spec_split_spaces(spec_trim(text@))[i],
{
    let trimmed = trim(text);
    if trimmed.as_str().is_empty() {
        None
    } else {
        Some(split_spaces(trimmed.as_str()))
    }
}

/// Only images that have a repository tag are offered for a new container.
pub fn offered_image(repo_tags: &Vec<String>) -> (offered: bool)
    ensures
        offered == (repo_tags@.len() > 0),
{
    repo_tags.len() > 0
}

/// The pod of a new container: the chosen one while the pod switch is on,
/// none otherwise.
pub fn chosen_pod(switch_active: bool, selected: Option<String>) -> (pod: Option<String>)
    ensures
        pod == (if switch_active { selected } else { None::<String> }),
{
    if switch_active {
        selected
    } else {
        None
    }
}

/// What happens after a creation request was sent.
#[derive(Clone, Debug)]
pub enum CreationEvent {
    /// The engine created the container with this id; `listed` tells whether
    /// the container list already holds it.
    Created { id: String, listed: bool },
    /// The engine refused the request with this message.
    Failed(String),
    /// A container with this id was added to the container list.
    Added(String),
}

/// What the creation page does in answer.
#[derive(Clone, Debug)]
pub struct CreationActions {
    /// Show the page of the container with this id.
    pub show: Option<String>,
    /// Start the container with this id.
    pub start: Option<String>,
    /// Go back to the settings and show this error.
    pub error: Option<String>,
}

/// The creation page after a request was sent: whether the new container is
/// to be started, and the id of a created container it still waits to see
/// listed.
#[derive(Debug)]
pub struct CreationFlow {
    run: bool,
    waiting_for: Option<String>,
}


impl CreationFlow {
    pub closed spec fn run(&self) -> bool {
        self.run
    }

    pub closed spec fn waiting_for(&self) -> Option<Seq<char>> {
        opt_string_view(self.waiting_for)
    }

    /// A request was sent; `run` tells whether to start the container.
    pub fn new(run: bool) -> (flow: Self)
        ensures
            flow.run() == run,
            flow.waiting_for() is None,
    {
        CreationFlow { run, waiting_for: None }
    }

    /// Handles one event: a created container is shown at once when it is
    /// listed, else once it is added, and started when asked to; a refused
    /// request sends the page back to its settings with the error.
    pub fn step(&mut self, event: CreationEvent) -> (actions: CreationActions)
        ensures
            final(self).run() == old(self).run(),
            match event {
                CreationEvent::Created { id, listed } => {
                    &&& opt_string_view(actions.show) == (if listed { Some(id@) } else { None::<Seq<char>> })
                    &&& final(self).waiting_for() == (if listed { old(self).waiting_for() } else { Some(id@) })
                    &&& opt_string_view(actions.start) == (if old(self).run() { Some(id@) } else { None::<Seq<char>> })
                    &&& actions.error is None
                },
                CreationEvent::Failed(message) => {
                    &&& actions.show is None && actions.start is None
                    &&& opt_string_view(actions.error) == Some(message@)
                    &&& final(self).waiting_for() == old(self).waiting_for()
                },
                CreationEvent::Added(id) => {
                    &&& opt_string_view(actions.show) == (if old(self).waiting_for() == Some(id@) {
                        Some(id@)
                    } else {
                        None::<Seq<char>>
                    })
                    &&& actions.start is None && actions.error is None
                    &&& final(self).waiting_for() == old(self).waiting_for()
                },
            },
    {
        match event {
            CreationEvent::Created { id, listed } => {
                let start = if self.run { Some(id.clone()) } else { None };
                if listed {
                    CreationActions { show: Some(id), start, error: None }
                } else {
                    self.waiting_for = Some(id);
                    CreationActions { show: None, start, error: None }
                }
            },
            CreationEvent::Failed(message) => CreationActions { show: None, start: None, error: Some(message) },
            CreationEvent::Added(id) => {
                let matches = match &self.waiting_for {
                    Some(w) => text_equals(w.as_str(), id.as_str()),
                    None => false,
                };
                if matches {
                    CreationActions { show: Some(id), start: None, error: None }
                } else {
                    CreationActions { show: None, start: None, error: None }
                }
            },
        }
    }
}

} // verus!
