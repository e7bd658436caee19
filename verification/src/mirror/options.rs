//! What the user asked of a mirroring session, and the command line that asks for it again.

use vstd::prelude::*;

use crate::bytes::even;
use crate::network::IpAddr;
use crate::text::{decimal, push_decimal, push_large_decimal, push_signed, signed_decimal};

verus! {

/// What the user asked of a mirroring session. Spans are in nanoseconds.
pub struct MirrorOptions {
    pub cast_hosts: Vec<IpAddr>,
    pub cast_port: u16,
    pub display_id: Option<u32>,
    pub extend: bool,
    pub fps: u32,
    pub width: u32,
    pub height: u32,
    pub bitrate: i32,
    pub target_delay: u128,
    pub duration: Option<u128>,
    pub synthetic: bool,
    /// Without one, two frame periods; zero keeps raw frames however old they are.
    pub max_frame_age: Option<u128>,
    pub adaptive_bitrate: bool,
    pub prioritize_encoding_speed: bool,
    pub audio: bool,
}

/// Why a group of receivers was refused.
#[derive(Debug)]
pub enum HostError {
    /// At least one host is required.
    Missing,
    /// This host was named twice.
    Duplicate(IpAddr),
}

/// The position of the first host that was named before, or the number of hosts.
pub open spec fn first_repeated(hosts: Seq<IpAddr>, start: int) -> int
    decreases hosts.len() - start,
{
    if start >= hosts.len() {
        hosts.len() as int
    } else if named_before(hosts, start) {
        start
    } else {
        first_repeated(hosts, start + 1)
    }
}

/// Whether a host was named before this position.
pub open spec fn named_before(hosts: Seq<IpAddr>, position: int) -> bool {
    exists|i: int| 0 <= i < position && (#[trigger] hosts[i]).names(&hosts[position])
}

/// Whether no host is named twice.
pub open spec fn hosts_differ(hosts: Seq<IpAddr>) -> bool {
    forall|i: int| 0 <= i < hosts.len() ==> !#[trigger] named_before(hosts, i)
}

/// Why these hosts are refused, if they are.
pub open spec fn host_refusal(hosts: Seq<IpAddr>) -> Option<HostError> {
    let repeated = first_repeated(hosts, 0);
    if hosts.len() == 0 {
        Some(HostError::Missing)
    } else if repeated < hosts.len() {
        Some(HostError::Duplicate(hosts[repeated]))
    } else {
        None
    }
}

/// The host that is refused is the first one that was named before, and none is where all differ.
pub proof fn lemma_the_first_repeated_host_is_refused(hosts: Seq<IpAddr>, start: int)
    requires
        0 <= start <= hosts.len(),
    ensures
        start <= first_repeated(hosts, start) <= hosts.len(),
        forall|i: int|
            start <= i < first_repeated(hosts, start) ==> !#[trigger] named_before(hosts, i),
        first_repeated(hosts, start) < hosts.len() ==> named_before(
            hosts,
            first_repeated(hosts, start),
        ),
    decreases hosts.len() - start,
{
    if start < hosts.len() && !named_before(hosts, start) {
        lemma_the_first_repeated_host_is_refused(hosts, start + 1);
    }
}

/// A group is accepted where it has a host and no two of its hosts are the same. Otherwise the
/// first host that stands before already is named.
pub proof fn lemma_groups_have_different_hosts(hosts: Seq<IpAddr>)
    ensures
        host_refusal(hosts) is None <==> hosts.len() > 0 && forall|i: int, j: int|
            0 <= i < j < hosts.len() ==> !(#[trigger] hosts[i]).names(#[trigger] &hosts[j]),
        host_refusal(hosts) == Some(HostError::Missing) <==> hosts.len() == 0,
        host_refusal(hosts) matches Some(HostError::Duplicate(host)) ==> exists|j: int|
            0 <= j < hosts.len() && host == #[trigger] hosts[j] && named_before(hosts, j) && forall|k: int|
                0 <= k < j ==> !#[trigger] named_before(hosts, k),
{
    lemma_the_first_repeated_host_is_refused(hosts, 0);
    let repeated = first_repeated(hosts, 0);
    if repeated < hosts.len() {
        assert(named_before(hosts, repeated));
        let i = choose|i: int| 0 <= i < repeated && (#[trigger] hosts[i]).names(&hosts[repeated]);
        assert(hosts[i].names(&hosts[repeated]));
    } else {
        assert forall|i: int, j: int| 0 <= i < j < hosts.len() implies !(#[trigger] hosts[i]).names(
            #[trigger] &hosts[j],
        ) by {
            assert(!named_before(hosts, j));
        }
    }
}

/// A group of receivers needs a host, and each host once.
pub fn validate_cast_hosts(hosts: &[IpAddr]) -> (result: Result<(), HostError>)
    ensures
        result is Ok <==> hosts@.len() > 0 && hosts_differ(hosts@),
        match result {
            Ok(()) => host_refusal(hosts@) is None,
            Err(error) => host_refusal(hosts@) == Some(error),
        },
{
    if hosts.len() == 0 {
        return Err(HostError::Missing);
    }
    let mut index: usize = 0;
    while index < hosts.len()
        invariant
            index <= hosts@.len(),
            hosts@.len() > 0,
            first_repeated(hosts@, 0) == first_repeated(hosts@, index as int),
            forall|i: int| 0 <= i < index ==> !#[trigger] named_before(hosts@, i),
        decreases hosts@.len() - index,
    {
        let mut earlier: usize = 0;
        while earlier < index
            invariant
                earlier <= index < hosts@.len(),
                first_repeated(hosts@, 0) == first_repeated(hosts@, index as int),
                forall|i: int| 0 <= i < earlier ==> !(#[trigger] hosts@[i]).names(&hosts@[index as int]),
            decreases index - earlier,
        {
            if hosts[earlier].same(&hosts[index]) {
                assert(hosts@[earlier as int].names(&hosts@[index as int]));
                assert(named_before(hosts@, index as int));
                return Err(HostError::Duplicate(hosts[index].clone()));
            }
            earlier = earlier + 1;
        }
        index = index + 1;
    }
    Ok(())
}

/// The arguments that name these hosts.
pub open spec fn host_arguments(hosts: Seq<IpAddr>) -> Seq<char>
    decreases hosts.len(),
{
    if hosts.len() == 0 {
        Seq::empty()
    } else {
        host_arguments(hosts.drop_last()) + " --host "@ + hosts.last().printed()
    }
}

/// Every host is named behind an argument of its own, in the order of the hosts.
pub proof fn lemma_every_host_is_named(hosts: Seq<IpAddr>)
    ensures
        host_arguments(hosts) == hosts.map_values(
            |host: IpAddr| " --host "@ + host.printed(),
        ).flatten(),
    decreases hosts.len(),
{
    let parts = hosts.map_values(|host: IpAddr| " --host "@ + host.printed());
    if hosts.len() > 0 {
        let front = hosts.drop_last();
        lemma_every_host_is_named(front);
        let before = front.map_values(|host: IpAddr| " --host "@ + host.printed());
        assert(parts.drop_last() =~= before);
        parts.lemma_flatten_and_flatten_alt_are_equivalent();
        before.lemma_flatten_and_flatten_alt_are_equivalent();
        assert(parts.last() == " --host "@ + hosts.last().printed());
        assert(host_arguments(hosts) =~= host_arguments(front) + (" --host "@
            + hosts.last().printed()));
    }
}

/// The arguments that name these hosts.
pub fn host_command_arguments(hosts: &[IpAddr]) -> (arguments: String)
    ensures
        arguments@ == host_arguments(hosts@),
{
    let mut arguments: String = String::new();
    let mut index: usize = 0;
    assert(hosts@.take(0) =~= Seq::<IpAddr>::empty());
    while index < hosts.len()
        invariant
            index <= hosts@.len(),
            arguments@ == host_arguments(hosts@.take(index as int)),
        decreases hosts@.len() - index,
    {
        assert(hosts@.take(index + 1).drop_last() =~= hosts@.take(index as int));
        let host: String = hosts[index].text();
        arguments = arguments.concat(" --host ").concat(host.as_str());
        index = index + 1;
    }
    assert(hosts@.take(index as int) =~= hosts@);
    arguments
}

/// The argument that selects the capture source.
pub open spec fn source_argument(extend: bool, display_id: Option<u32>) -> Seq<char> {
    if extend {
        " --extend"@
    } else {
        match display_id {
            Some(display) => " --display "@ + decimal(display as nat),
            None => Seq::empty(),
        }
    }
}

/// The argument that selects the capture source: an extended display, a display, or the default.
pub fn source_command_argument(extend: bool, display_id: Option<u32>) -> (argument: String)
    ensures
        argument@ == source_argument(extend, display_id),
{
    if extend {
        return " --extend".to_owned();
    }
    match display_id {
        Some(display) => {
            let mut argument: String = " --display ".to_owned();
            push_decimal(&mut argument, display as u64);
            argument
        },
        None => String::new(),
    }
}

/// The command that starts a session with these settings.
pub open spec fn desktop_command(
    options: MirrorOptions,
    source: Seq<char>,
    delay_ms: u64,
    fps: u32,
    tuning: Seq<char>,
) -> Seq<char> {
    "cast desktop"@ + host_arguments(options.cast_hosts@) + " --cast-port "@ + decimal(
        options.cast_port as nat,
    ) + source + " --target-delay-ms "@ + decimal(delay_ms as nat) + " --fps "@ + decimal(
        fps as nat,
    ) + " --width "@ + decimal((options.width - options.width % 2) as nat) + " --height "@ + decimal(
        (options.height - options.height % 2) as nat,
    ) + " --bitrate "@ + signed_decimal(options.bitrate as int) + tuning
}

/// The command that starts a session with these settings.
pub fn recommended_command(
    options: &MirrorOptions,
    source: &str,
    delay_ms: u64,
    fps: u32,
    tuning: &str,
) -> (command: String)
    ensures
        command@ == desktop_command(*options, source@, delay_ms, fps, tuning@),
{
    let hosts: String = host_command_arguments(options.cast_hosts.as_slice());
    let mut command: String = "cast desktop".to_owned().concat(hosts.as_str()).concat(
        " --cast-port ",
    );
    push_decimal(&mut command, options.cast_port as u64);
    let mut command: String = command.concat(source).concat(" --target-delay-ms ");
    push_decimal(&mut command, delay_ms);
    let mut command: String = command.concat(" --fps ");
    push_decimal(&mut command, fps as u64);
    let mut command: String = command.concat(" --width ");
    push_decimal(&mut command, even(options.width) as u64);
    let mut command: String = command.concat(" --height ");
    push_decimal(&mut command, even(options.height) as u64);
    let mut command: String = command.concat(" --bitrate ");
    push_signed(&mut command, options.bitrate as i64);
    command.concat(tuning)
}

/// The arguments of the tuning controls that were set.
pub open spec fn tuning_arguments_of(options: MirrorOptions) -> Seq<char> {
    (match options.max_frame_age {
        Some(age) => " --max-frame-age-ms "@ + decimal((age / 1_000_000) as nat),
        None => Seq::empty(),
    }) + (if options.adaptive_bitrate {
        Seq::empty()
    } else {
        " --fixed-bitrate"@
    }) + (if options.prioritize_encoding_speed {
        Seq::empty()
    } else {
        " --quality-priority"@
    })
}

/// Controls at their defaults need no argument, and each that is not has its own.
pub proof fn lemma_changed_controls_have_their_argument(options: MirrorOptions)
    ensures
        options.max_frame_age is None && options.adaptive_bitrate
            && options.prioritize_encoding_speed ==> tuning_arguments_of(options).len() == 0,
        options.max_frame_age is None && !options.adaptive_bitrate
            && options.prioritize_encoding_speed ==> tuning_arguments_of(options)
            == " --fixed-bitrate"@,
        options.max_frame_age is None && options.adaptive_bitrate
            && !options.prioritize_encoding_speed ==> tuning_arguments_of(options)
            == " --quality-priority"@,
        options.max_frame_age is None && !options.adaptive_bitrate
            && !options.prioritize_encoding_speed ==> tuning_arguments_of(options)
            == " --fixed-bitrate"@ + " --quality-priority"@,
{
}

/// The deadline of a frame is given in whole milliseconds, rounded down.
pub proof fn lemma_deadlines_are_given_in_milliseconds(options: MirrorOptions, age: u128, millis: nat)
    requires
        options.max_frame_age == Some(age),
        options.adaptive_bitrate,
        options.prioritize_encoding_speed,
        millis * 1_000_000 <= age < (millis + 1) * 1_000_000,
    ensures
        tuning_arguments_of(options) == " --max-frame-age-ms "@ + decimal(millis),
{
    assert((age / 1_000_000) as nat == millis);
    assert(tuning_arguments_of(options) =~= " --max-frame-age-ms "@ + decimal(millis));
}

/// The arguments of the tuning controls that were set.
pub fn tuning_arguments(options: &MirrorOptions) -> (arguments: String)
    ensures
        arguments@ == tuning_arguments_of(*options),
{
    let mut arguments: String = String::new();
    if let Some(age) = options.max_frame_age {
        arguments = arguments.concat(" --max-frame-age-ms ");
        push_large_decimal(&mut arguments, age / 1_000_000);
    }
    if !options.adaptive_bitrate {
        arguments = arguments.concat(" --fixed-bitrate");
    }
    if !options.prioritize_encoding_speed {
        arguments = arguments.concat(" --quality-priority");
    }
    assert(arguments@ =~= tuning_arguments_of(*options));
    arguments
}

} // verus!
