use vstd::prelude::*;

use crate::term::push_char;
use crate::text::{lemma_find_seq, opt_string_view, decimal, find_seq, hex_digit, hex_digit_char, short_id, spec_decimal, spec_split_once, split_once};

verus! {

broadcast use vstd::string::group_string_axioms;

/// The decimal representation of a signed number.
pub open spec fn spec_signed_decimal(n: int) -> Seq<char> {
    if n < 0 {
        "-"@ + spec_decimal((-n) as nat)
    } else {
        spec_decimal(n as nat)
    }
}

/// Formats a signed number in decimal.
pub fn signed_decimal(n: i64) -> (text: String)
    ensures
        text@ == spec_signed_decimal(n as int),
{
    if n < 0 {
        let magnitude: u64 = (-(n as i128)) as u64;
        let digits = decimal(magnitude);
        let mut text = String::from_str("-");
        text.append(digits.as_str());
        text
    } else {
        decimal(n as u64)
    }
}

/// The address under which a published port is reached: the binding's host
/// address, or, where the binding names none, the engine's address (the URL
/// of a remote connection, the loopback address of a local one), then a colon
/// and the host port ("0" where none is bound).
pub open spec fn spec_binding_host(host_ip: Option<Seq<char>>, host_port: Option<Seq<char>>, remote_url: Option<Seq<char>>) -> Seq<char> {
    let ip = match host_ip {
        Some(ip) => ip,
        None => Seq::empty(),
    };
    let host = if ip.len() == 0 {
        match remote_url {
            Some(url) => url,
            None => "127.0.0.1"@,
        }
    } else {
        ip
    };
    let port = match host_port {
        Some(port) => port,
        None => "0"@,
    };
    host + ":"@ + port
}

pub open spec fn opt_view(s: Option<&str>) -> Option<Seq<char>> {
    match s {
        Some(s) => Some(s@),
        None => None,
    }
}

pub fn binding_host(host_ip: Option<&str>, host_port: Option<&str>, remote_url: Option<&str>) -> (host: String)
    ensures
        host@ == spec_binding_host(opt_view(host_ip), opt_view(host_port), opt_view(remote_url)),
{
    let ip: &str = match host_ip {
        Some(ip) => ip,
        None => "",
    };
    proof {
        reveal_strlit("");
    }
    let mut host = if ip.is_empty() {
        match remote_url {
            Some(url) => String::from_str(url),
            None => String::from_str("127.0.0.1"),
        }
    } else {
        String::from_str(ip)
    };
    host.append(":");
    match host_port {
        Some(port) => host.append(port),
        None => host.append("0"),
    }
    host
}

/// Where a published port is shown: a binding that names a host address is
/// shown under that address whatever the connection, so the engine's URL
/// makes no difference to it; the engine's URL stands in only where the
/// binding names no address, and the loopback address where the connection
/// is local as well. The host port follows a colon, "0" where none is bound.
pub proof fn lemma_binding_host_prefers_the_binding(
    host_ip: Option<Seq<char>>,
    host_port: Option<Seq<char>>,
    remote_url: Option<Seq<char>>,
    other_url: Option<Seq<char>>,
)
    ensures
        ({
            let port = match host_port {
                Some(p) => p,
                None => "0"@,
            };
            let shown = spec_binding_host(host_ip, host_port, remote_url);
            &&& forall|ip: Seq<char>| host_ip == Some(ip) && ip.len() > 0 ==> shown == ip + ":"@ + port
            &&& (host_ip matches Some(ip) && ip.len() > 0) ==> shown == spec_binding_host(host_ip, host_port, other_url)
            &&& !(host_ip matches Some(ip) && ip.len() > 0) ==> shown == match remote_url {
                Some(url) => url + ":"@ + port,
                None => "127.0.0.1:"@ + port,
            }
        }),
{
    reveal_strlit("127.0.0.1");
    reveal_strlit("127.0.0.1:");
    reveal_strlit(":");
    assert("127.0.0.1"@ + ":"@ =~= "127.0.0.1:"@);
}

/// The host of a remote connection's URL: what follows the scheme separator,
/// up to a port.
pub open spec fn spec_remote_host(url: Seq<char>) -> Seq<char> {
    let rest = match spec_split_once(url, "://"@) {
        Some((_, rest)) => rest,
        None => url,
    };
    match spec_split_once(rest, ":"@) {
        Some((host, _)) => host,
        None => rest,
    }
}

/// The host of a URL written as a scheme, `://`, a host and, optionally, a
/// colon and a port, is that host, where neither the scheme nor the host
/// holds a colon.
pub proof fn lemma_remote_host_of_url(scheme: Seq<char>, host: Seq<char>, port: Seq<char>)
    requires
        !scheme.contains(':'),
        !host.contains(':'),
    ensures
        spec_remote_host(scheme + "://"@ + host + ":"@ + port) == host,
        spec_remote_host(scheme + "://"@ + host) == host,
{
    reveal_strlit("://");
    reveal_strlit(":");
    let sep = "://"@;
    let colon = ":"@;
    let with_port = host + colon + port;
    let urls = seq![with_port, host];
    assert forall|k: int| 0 <= k < 2 implies spec_remote_host(scheme + sep + #[trigger] urls[k]) == host by {
        let rest = urls[k];
        let url = scheme + sep + rest;
        assert forall|j: int| 0 <= j < scheme.len() implies #[trigger] url.subrange(j, j + 3) != sep by {
            assert(url.subrange(j, j + 3)[0] == scheme[j]);
        }
        assert(url.subrange(scheme.len() as int, scheme.len() as int + 3) =~= sep);
        lemma_find_seq(url, sep, scheme.len() as int);
        assert(url.skip(scheme.len() as int + 3) =~= rest);
        assert forall|j: int| 0 <= j < host.len() implies #[trigger] rest.subrange(j, j + 1) != colon by {
            assert(rest.subrange(j, j + 1)[0] == host[j]);
        }
        if k == 0 {
            assert(rest.subrange(host.len() as int, host.len() as int + 1) =~= colon);
            lemma_find_seq(rest, colon, host.len() as int);
            assert(rest.take(host.len() as int) =~= host);
        } else if host.len() > 0 {
            lemma_find_seq(rest, colon, host.len() as int);
        }
    }
    assert(urls[0] == with_port);
    assert(urls[1] == host);
    assert(scheme + "://"@ + host + ":"@ + port =~= scheme + sep + with_port);
}

/// Extracts the host of a remote connection's URL. The URL of a remote
/// connection always holds a scheme.
pub fn remote_host(url: &str) -> (host: String)
    requires
        find_seq(url@, "://"@) is Some,
    ensures
        host@ == spec_remote_host(url@),
{
    let rest = match split_once(url, "://") {
        Some((_, rest)) => rest,
        None => String::from_str(url),
    };
    match split_once(rest.as_str(), ":") {
        Some((host, _)) => host,
        None => rest,
    }
}

/// The address of a port mapping in the container's properties: its address,
/// or the engine's host (that of the remote URL, or the loopback address),
/// then a colon and the host port.
pub open spec fn spec_mapping_host(ip_address: Seq<char>, remote_url: Option<Seq<char>>, host_port: int) -> Seq<char> {
    let host = if ip_address.len() == 0 {
        match remote_url {
            Some(url) => spec_remote_host(url),
            None => "127.0.0.1"@,
        }
    } else {
        ip_address
    };
    host + ":"@ + spec_signed_decimal(host_port)
}

pub fn mapping_host(ip_address: &str, remote_url: Option<&str>, host_port: i32) -> (host: String)
    requires
        ip_address@.len() == 0 ==> match remote_url {
            Some(url) => find_seq(url@, "://"@) is Some,
            None => true,
        },
    ensures
        host@ == spec_mapping_host(ip_address@, opt_view(remote_url), host_port as int),
{
    let mut host = if ip_address.is_empty() {
        match remote_url {
            Some(url) => remote_host(url),
            None => String::from_str("127.0.0.1"),
        }
    } else {
        String::from_str(ip_address)
    };
    host.append(":");
    let port = signed_decimal(host_port as i64);
    host.append(port.as_str());
    host
}

/// Where a port mapping is shown: under its own address whenever it has
/// one, whatever the connection; otherwise under the host of the remote
/// connection's URL, or the loopback address for a local one. The host port
/// follows a colon in decimal.
pub proof fn lemma_mapping_host_prefers_the_mapping(
    ip_address: Seq<char>,
    remote_url: Option<Seq<char>>,
    other_url: Option<Seq<char>>,
    host_port: int,
)
    ensures
        ip_address.len() > 0 ==> spec_mapping_host(ip_address, remote_url, host_port) == ip_address + ":"@
            + spec_signed_decimal(host_port),
        ip_address.len() > 0 ==> spec_mapping_host(ip_address, remote_url, host_port) == spec_mapping_host(
            ip_address,
            other_url,
            host_port,
        ),
        ip_address.len() == 0 ==> spec_mapping_host(ip_address, remote_url, host_port) == match remote_url {
            Some(url) => spec_remote_host(url) + ":"@ + spec_signed_decimal(host_port),
            None => "127.0.0.1:"@ + spec_signed_decimal(host_port),
        },
{
    reveal_strlit("127.0.0.1");
    reveal_strlit("127.0.0.1:");
    reveal_strlit(":");
    assert("127.0.0.1"@ + ":"@ =~= "127.0.0.1:"@);
}

/// A link to a published port.
pub fn host_link(host: &str) -> (link: String)
    ensures
        link@ == "<a href='http://"@ + host@ + "'>"@ + host@ + "</a>"@,
{
    let mut link = String::from_str("<a href='http://");
    link.append(host);
    link.append("'>");
    link.append(host);
    link.append("</a>");
    link
}

/// The label of a port mapping on a container card: host port and protocol.
pub fn port_mapping_label(host_port: i32, protocol: &str) -> (label: String)
    ensures
        label@ == spec_signed_decimal(host_port as int) + "/"@ + protocol@,
{
    let mut label = signed_decimal(host_port as i64);
    label.append("/");
    label.append(protocol);
    label
}

/// The label of an image: its first repository tag, or its short id when it
/// has no tag.
pub fn image_label(repo_tags: &Vec<String>, id: &str) -> (label: String)
    ensures
        repo_tags@.len() > 0 ==> label@ == repo_tags@[0]@,
        repo_tags@.len() == 0 ==> label@ == id@.take(if id@.len() < 12 { id@.len() as int } else { 12 }),
{
    if repo_tags.len() > 0 {
        repo_tags[0].clone()
    } else {
        short_id(id)
    }
}

/// The heading of the rename dialog: its title, then the current name in
/// bold between guillemets.
pub fn rename_heading(title: &str, name: &str) -> (heading: String)
    ensures
        heading@ == title@ + "\n<span weight=\"bold\">«"@ + name@ + "»</span>"@,
{
    let mut heading = String::from_str(title);
    heading.append("\n<span weight=\"bold\">«");
    heading.append(name);
    heading.append("»</span>");
    heading
}

/// The page of the image area: waiting until the image is known.
pub fn image_page(has_image: bool) -> (page: &'static str)
    ensures
        page@ == (if has_image { "ready"@ } else { "waiting"@ }),
{
    if has_image {
        "ready"
    } else {
        "waiting"
    }
}

/// The port bindings row shows when there is at least one binding.
pub fn port_bindings_visible(count: Option<usize>) -> (visible: bool)
    ensures
        visible <==> (count is Some && count->0 > 0),
{
    match count {
        Some(n) => n > 0,
        None => false,
    }
}

/// Two lowercase hexadecimal digits for a color channel.
pub open spec fn spec_hex_byte(n: u8) -> Seq<char> {
    seq![hex_digit_char((n / 16) as int), hex_digit_char((n % 16) as int)]
}

fn push_hex_byte(out: &mut String, n: u8)
    ensures
        final(out)@ == old(out)@ + spec_hex_byte(n),
{
    push_char(out, hex_digit((n / 16) as u32));
    push_char(out, hex_digit((n % 16) as u32));
    assert(final(out)@ =~= old(out)@ + spec_hex_byte(n));
}

/// The markup of a volume's mount path: the destination (dimmed unless in
/// high contrast), a space, then the access mode and the mount options in the
/// accent color (bold in high contrast).
pub open spec fn spec_volume_path_label(destination: Seq<char>, high_contrast: bool, color: (u8, u8, u8), writable: bool, mode: Seq<char>) -> Seq<char> {
    (if high_contrast { destination } else { "<span alpha=\"55%\">"@ + destination + "</span>"@ }) + " "@
        + "<span foreground=\"#"@ + spec_hex_byte(color.0) + spec_hex_byte(color.1) + spec_hex_byte(color.2) + "\""@
        + (if high_contrast { " weight=\"bold\""@ } else { ""@ }) + ">"@ + (if writable { "rw"@ } else { "ro"@ }) + (
    if mode.len() == 0 {
        ""@
    } else {
        ","@ + mode
    }) + "</span>"@
}

pub fn volume_path_label(destination: &str, high_contrast: bool, color: (u8, u8, u8), writable: bool, mode: &str) -> (label: String)
    ensures
        label@ == spec_volume_path_label(destination@, high_contrast, color, writable, mode@),
{
    proof {
        reveal_strlit("");
    }
    let mut label = if high_contrast {
        String::from_str(destination)
    } else {
        let mut dimmed = String::from_str("<span alpha=\"55%\">");
        dimmed.append(destination);
        dimmed.append("</span>");
        dimmed
    };
    label.append(" ");
    label.append("<span foreground=\"#");
    push_hex_byte(&mut label, color.0);
    push_hex_byte(&mut label, color.1);
    push_hex_byte(&mut label, color.2);
    label.append("\"");
    if high_contrast {
        label.append(" weight=\"bold\"");
    } else {
        label.append("");
    }
    label.append(">");
    label.append(if writable { "rw" } else { "ro" });
    if mode.is_empty() {
        label.append("");
    } else {
        label.append(",");
        label.append(mode);
    }
    label.append("</span>");
    label
}

/// The rows of one published port: one per host binding, each the address
/// under which the port is reached and the container port.
pub open spec fn port_rows(port: Seq<char>, hosts: Seq<(Option<String>, Option<String>)>, remote_url: Option<Seq<char>>) -> Seq<(Seq<char>, Seq<char>)>
    decreases hosts.len(),
{
    if hosts.len() == 0 {
        Seq::empty()
    } else {
        let (ip, host_port) = hosts.last();
        port_rows(port, hosts.drop_last(), remote_url).push(
            (spec_binding_host(opt_string_view(ip), opt_string_view(host_port), remote_url), port),
        )
    }
}

/// The rows of all published ports, port after port.
pub open spec fn binding_rows_spec(bindings: Seq<(String, Vec<(Option<String>, Option<String>)>)>, remote_url: Option<Seq<char>>) -> Seq<(Seq<char>, Seq<char>)>
    decreases bindings.len(),
{
    if bindings.len() == 0 {
        Seq::empty()
    } else {
        let (port, hosts) = bindings.last();
        binding_rows_spec(bindings.drop_last(), remote_url) + port_rows(port@, hosts@, remote_url)
    }
}

pub open spec fn pair_views(rows: Seq<(String, String)>) -> Seq<(Seq<char>, Seq<char>)> {
    rows.map_values(|r: (String, String)| (r.0@, r.1@))
}

fn as_opt_str(s: &Option<String>) -> (r: Option<&str>)
    ensures
        opt_view(r) == opt_string_view(*s),
{
    match s {
        Some(x) => Some(x.as_str()),
        None => None,
    }
}

/// The rows of the port bindings list: for each published port, one row per
/// host binding, with the address under which it is reached and the
/// container port.
pub fn binding_rows(bindings: &Vec<(String, Vec<(Option<String>, Option<String>)>)>, remote_url: Option<&str>) -> (rows: Vec<(String, String)>)
    ensures
        pair_views(rows@) == binding_rows_spec(bindings@, opt_view(remote_url)),
{
    let mut rows: Vec<(String, String)> = Vec::new();
    let mut i: usize = 0;
    assert(bindings@.take(0) =~= Seq::<(String, Vec<(Option<String>, Option<String>)>)>::empty());
    assert(pair_views(rows@) =~= Seq::<(Seq<char>, Seq<char>)>::empty());
    while i < bindings.len()
        invariant
            i <= bindings@.len(),
            pair_views(rows@) == binding_rows_spec(bindings@.take(i as int), opt_view(remote_url)),
        decreases bindings@.len() - i,
    {
        let port = &bindings[i].0;
        let hosts = &bindings[i].1;
        let ghost before = pair_views(rows@);
        let mut j: usize = 0;
        assert(hosts@.take(0) =~= Seq::<(Option<String>, Option<String>)>::empty());
        assert(before + port_rows(port@, hosts@.take(0), opt_view(remote_url)) =~= before);
        while j < hosts.len()
            invariant
                j <= hosts@.len(),
                pair_views(rows@) == before + port_rows(port@, hosts@.take(j as int), opt_view(remote_url)),
            decreases hosts@.len() - j,
        {
            let host = binding_host(as_opt_str(&hosts[j].0), as_opt_str(&hosts[j].1), remote_url);
            let ghost prev = pair_views(rows@);
            rows.push((host, port.clone()));
            proof {
                let t = hosts@.take(j + 1);
                assert(t.drop_last() =~= hosts@.take(j as int));
                assert(t.last() == hosts@[j as int]);
                assert(pair_views(rows@) =~= prev.push((host@, port@)));
            }
            j = j + 1;
        }
        proof {
            assert(hosts@.take(hosts@.len() as int) =~= hosts@);
            let t = bindings@.take(i + 1);
            assert(t.drop_last() =~= bindings@.take(i as int));
            assert(t.last() == bindings@[i as int]);
        }
        i = i + 1;
    }
    assert(bindings@.take(bindings@.len() as int) =~= bindings@);
    rows
}

/// The page of a card's port area: the pod for a container in a pod, else
/// its published ports, or a note that it has none.
pub fn ports_page(in_pod: bool, ports: usize) -> (page: &'static str)
    ensures
        page@ == (if in_pod { "pod"@ } else if ports > 0 { "ports"@ } else { "no-ports"@ }),
{
    if in_pod {
        "pod"
    } else if ports > 0 {
        "ports"
    } else {
        "no-ports"
    }
}

} // verus!
