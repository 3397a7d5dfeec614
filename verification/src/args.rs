//! The command lines of the two processes.

use crate::text::{decimal, decimal_text};
use crate::{HostName, HostTarget};
use vstd::prelude::*;
use vstd::utf8::encode_utf8;

verus! {

/// The program that is run as the companion.
pub const COMPANION_PROGRAM: &'static str = "gitpod-local-companion-windows.exe";

/// The program that is run as the shell client.
pub const SHELL_PROGRAM: &'static str = "ssh";

/// Tells the companion not to open tunnels by itself.
pub const NO_TUNNEL_FLAG: &'static str = "--auto-tunnel=false";

/// Announces the host's name to the companion.
pub const HOST_FLAG: &'static str = "--gitpod-host";

/// Announces an option to the shell client.
pub const OPTION_FLAG: &'static str = "-o";

/// The option that switches host key checking off.
pub const HOST_KEY_OPTION: &'static str = "StrictHostKeyChecking=no";

/// Announces a reverse port forward to the shell client.
pub const FORWARD_FLAG: &'static str = "-R";

/// Stands between the two port numbers of a forward.
pub const LOOPBACK_INFIX: &'static str = ":127.0.0.1:";

/// Announces the configuration file to the shell client.
pub const CONFIG_FLAG: &'static str = "-F";

/// The companion's arguments for `host`.
pub open spec fn companion_arguments(host: HostTarget) -> Seq<Seq<char>> {
    match host {
        HostTarget::Default => seq![NO_TUNNEL_FLAG@],
        HostTarget::Explicit(name) => seq![NO_TUNNEL_FLAG@, HOST_FLAG@, name],
    }
}

/// The forward of `port` to the same port of the local machine.
pub open spec fn port_mapping(port: u32) -> Seq<char> {
    decimal(port as nat) + LOOPBACK_INFIX@ + decimal(port as nat)
}

/// The forward arguments of `ports`: for each port the flag, then its mapping.
pub open spec fn forward_arguments(ports: Seq<u32>) -> Seq<Seq<char>> {
    Seq::new(
        2 * ports.len(),
        |i: int|
            if i % 2 == 0 {
                FORWARD_FLAG@
            } else {
                port_mapping(ports[i / 2])
            },
    )
}

/// The shell client's arguments.
pub open spec fn shell_arguments(
    config_path: Seq<char>,
    instance_id: Seq<char>,
    ports: Seq<u32>,
) -> Seq<Seq<char>> {
    seq![OPTION_FLAG@, HOST_KEY_OPTION@] + forward_arguments(ports) + seq![
        CONFIG_FLAG@,
        config_path,
        instance_id,
    ]
}

/// Builds the companion's arguments. The host's name is not looked at.
pub fn companion_args(host: HostName) -> (args: Vec<String>)
    ensures
        args.deep_view() == companion_arguments(host@),
{
    let mut args: Vec<String> = Vec::new();
    args.push(NO_TUNNEL_FLAG.to_owned());
    match host {
        HostName::Default => {},
        HostName::Is(name) => {
            args.push(HOST_FLAG.to_owned());
            args.push(name);
        },
    }
    assert(args.deep_view() =~= companion_arguments(host@));
    args
}

/// Writes the forward of `port`.
pub fn port_mapping_text(port: u32) -> (text: String)
    ensures
        text@ == port_mapping(port),
{
    let mut text = decimal_text(port);
    let number = decimal_text(port);
    text.append(LOOPBACK_INFIX);
    text.append(number.as_str());
    text
}

/// Builds the shell client's arguments: the host key option, one forward for
/// each port in the order given, the configuration file, and the instance last.
pub fn shell_args(config_path: &str, instance_id: &str, ports: &Vec<u32>) -> (args: Vec<String>)
    ensures
        args.deep_view() == shell_arguments(config_path@, instance_id@, ports@),
{
    let mut args: Vec<String> = Vec::new();
    args.push(OPTION_FLAG.to_owned());
    args.push(HOST_KEY_OPTION.to_owned());
    let ghost head = seq![OPTION_FLAG@, HOST_KEY_OPTION@];
    assert(args.deep_view() =~= head + forward_arguments(ports@.take(0)));
    let mut i: usize = 0;
    while i < ports.len()
        invariant
            i <= ports.len(),
            head == seq![OPTION_FLAG@, HOST_KEY_OPTION@],
            args.deep_view() == head + forward_arguments(ports@.take(i as int)),
        decreases ports.len() - i,
    {
        let ghost before = args.deep_view();
        let mapping = port_mapping_text(ports[i]);
        args.push(FORWARD_FLAG.to_owned());
        args.push(mapping);
        assert(args.deep_view() =~= before + seq![FORWARD_FLAG@, port_mapping(ports@[i as int])]);
        assert(forward_arguments(ports@.take(i + 1)) =~= forward_arguments(ports@.take(i as int))
            + seq![FORWARD_FLAG@, port_mapping(ports@[i as int])]);
        i += 1;
    }
    assert(ports@.take(i as int) == ports@);
    let ghost middle = args.deep_view();
    args.push(CONFIG_FLAG.to_owned());
    args.push(config_path.to_owned());
    args.push(instance_id.to_owned());
    assert(args.deep_view() =~= middle + seq![CONFIG_FLAG@, config_path@, instance_id@]);
    args
}

/// The forward of `port` stands in `args` at position `at`: the flag, and
/// right behind it the port's mapping.
pub open spec fn forward_pair_at(args: Seq<Seq<char>>, at: int, port: u32) -> bool {
    &&& 0 <= at
    &&& at + 1 < args.len()
    &&& args[at] == FORWARD_FLAG@
    &&& args[at + 1] == port_mapping(port)
}

/// Where the forward of the `k`-th port stands among the shell client's arguments.
pub open spec fn forward_position(k: int) -> int {
    2 + 2 * k
}

/// The companion is always told not to tunnel by itself. A named host stands
/// right behind the host flag. For the default host the flag is not there.
pub proof fn lemma_companion_host_flag(host: HostTarget)
    ensures
        companion_arguments(host).contains(NO_TUNNEL_FLAG@),
        host matches HostTarget::Explicit(name) ==> exists|at: int|
            0 <= at && at + 1 < companion_arguments(host).len()
                && #[trigger] companion_arguments(host)[at] == HOST_FLAG@
                && companion_arguments(host)[at + 1] == name,
        host is Default ==> !companion_arguments(host).contains(HOST_FLAG@),
{
    let args = companion_arguments(host);
    assert(args[0] == NO_TUNNEL_FLAG@);
    match host {
        HostTarget::Default => {
            reveal_strlit("--auto-tunnel=false");
            reveal_strlit("--gitpod-host");
            assert(NO_TUNNEL_FLAG@.len() != HOST_FLAG@.len());
        },
        HostTarget::Explicit(name) => {
            assert(args[1] == HOST_FLAG@ && args[2] == name);
        },
    }
}

/// Each port's forward stands among the shell client's arguments, the forwards
/// in the order of the ports and none upon another.
pub proof fn lemma_forwards_in_port_order(
    config_path: Seq<char>,
    instance_id: Seq<char>,
    ports: Seq<u32>,
)
    ensures
        forall|k: int|
            0 <= k < ports.len() ==> forward_pair_at(
                shell_arguments(config_path, instance_id, ports),
                #[trigger] forward_position(k),
                ports[k],
            ),
        forall|j: int, k: int| j < k ==> forward_position(j) + 1 < forward_position(k),
{
    let args = shell_arguments(config_path, instance_id, ports);
    assert forall|k: int| 0 <= k < ports.len() implies forward_pair_at(
        args,
        #[trigger] forward_position(k),
        ports[k],
    ) by {
        let at = forward_position(k);
        assert(args[at] == forward_arguments(ports)[2 * k]);
        assert(args[at + 1] == forward_arguments(ports)[2 * k + 1]);
    }
}

/// Without ports no forward stands among the shell client's arguments, unless
/// the caller's own two texts make one up: a configuration path that reads as
/// the forward flag, followed by an instance that reads as a mapping.
pub proof fn lemma_no_ports_no_forward(config_path: Seq<char>, instance_id: Seq<char>)
    requires
        !(config_path == FORWARD_FLAG@ && exists|port: u32|
            instance_id == #[trigger] port_mapping(port)),
    ensures
        forall|at: int, port: u32|
            !forward_pair_at(
                shell_arguments(config_path, instance_id, Seq::<u32>::empty()),
                at,
                port,
            ),
{
    let args = shell_arguments(config_path, instance_id, Seq::<u32>::empty());
    reveal_strlit("-o");
    reveal_strlit("StrictHostKeyChecking=no");
    reveal_strlit("-R");
    reveal_strlit("-F");
    assert(args =~= seq![OPTION_FLAG@, HOST_KEY_OPTION@, CONFIG_FLAG@, config_path, instance_id]);
    assert(OPTION_FLAG@[1] != FORWARD_FLAG@[1]);
    assert(HOST_KEY_OPTION@.len() != FORWARD_FLAG@.len());
    assert(CONFIG_FLAG@[1] != FORWARD_FLAG@[1]);
    assert forall|at: int, port: u32| !forward_pair_at(args, at, port) by {
        if forward_pair_at(args, at, port) {
            assert(at == 3);
            assert(instance_id == port_mapping(port));
        }
    }
}

/// The bytes that a process is handed for `args`: each text in UTF-8.
pub open spec fn argument_bytes(args: Seq<Seq<char>>) -> Seq<Seq<u8>> {
    Seq::new(args.len(), |i: int| encode_utf8(args[i]))
}

/// The companion's arguments depend on the host alone: whatever two runs of
/// `companion_args` on one host return, it is the same texts, byte for byte.
pub proof fn lemma_companion_args_reproducible(
    host: HostName,
    first: Vec<String>,
    second: Vec<String>,
)
    requires
        first.deep_view() == companion_arguments(host@),
        second.deep_view() == companion_arguments(host@),
    ensures
        first.deep_view() == second.deep_view(),
        argument_bytes(first.deep_view()) == argument_bytes(second.deep_view()),
{
}

/// The shell client's arguments depend on the two texts and the ports alone:
/// whatever two runs of `shell_args` on the same three return, it is the same
/// texts, byte for byte.
pub proof fn lemma_shell_args_reproducible(
    config_path: &str,
    instance_id: &str,
    ports: Vec<u32>,
    first: Vec<String>,
    second: Vec<String>,
)
    requires
        first.deep_view() == shell_arguments(config_path@, instance_id@, ports@),
        second.deep_view() == shell_arguments(config_path@, instance_id@, ports@),
    ensures
        first.deep_view() == second.deep_view(),
        argument_bytes(first.deep_view()) == argument_bytes(second.deep_view()),
{
}

} // verus!
