//! Capturing from the device: which device is taken, how packets become blocks, and what becomes
//! of a block that the consumer does not take.

use vstd::prelude::*;
use vstd::slice::slice_subrange;
use vstd::string::*;

use crate::audio::{not_whole_frames_message, CaptureBlock, RESPEAKER_CHANNELS};
use crate::pipeline_worker::SendOutcome;
use crate::text::{
    contains_str, contains_text, decimal, hexadecimal, push_decimal, push_hexadecimal, same_text,
};
use crate::wav::{bytes_samples, decode_samples};

verus! {

/// The capture buffer of the device: 100 ms in units of 100 ns.
pub const BUFFER_DURATION_HNS: i64 = 1_000_000;

/// Something else holds the device.
pub const DEVICE_IN_USE: u32 = 0x8889_000A;

#[derive(Debug)]
pub struct WasapiDeviceInfo {
    pub name: String,
    /// Stays the same across threads and processes: the capture finds the device by it.
    pub id: String,
}

/// What `str::to_lowercase` makes of a text.
pub uninterp spec fn lowercased(s: Seq<char>) -> Seq<char>;

/// `str::to_lowercase`: the text with every character in lower case, as Unicode has it. The tables
/// of Unicode are not stated here.
#[verifier::external_body]
fn to_lower(s: &str) -> (lower: String)
    ensures
        lower@ == lowercased(s@),
{
    s.to_lowercase()
}

/// The first name that holds the name of the array.
pub open spec fn first_respeaker(lowered: Seq<Seq<char>>, at: int) -> bool {
    &&& 0 <= at < lowered.len()
    &&& contains_text(lowered[at], "respeaker"@)
    &&& forall|k: int| 0 <= k < at ==> !contains_text(#[trigger] lowered[k], "respeaker"@)
}

/// Finds the array among names in lower case.
pub fn find_respeaker(lowered: &[String]) -> (found: Option<usize>)
    ensures
        match found {
            Some(at) => first_respeaker(crate::text::texts(lowered@), at as int),
            None => forall|k: int|
                0 <= k < lowered@.len() ==> !contains_text(
                    (#[trigger] lowered@[k])@,
                    "respeaker"@,
                ),
        },
{
    let ghost texts = crate::text::texts(lowered@);
    for i in 0..lowered.len()
        invariant
            texts == crate::text::texts(lowered@),
            forall|k: int|
                0 <= k < i ==> !contains_text((#[trigger] lowered@[k])@, "respeaker"@),
    {
        if contains_str(lowered[i].as_str(), "respeaker") {
            proof {
                assert(texts[i as int] == lowered@[i as int]@);
                assert forall|k: int| 0 <= k < i implies !contains_text(
                    #[trigger] texts[k],
                    "respeaker"@,
                ) by {
                    assert(texts[k] == lowered@[k]@);
                }
            }
            return Some(i);
        }
    }
    None
}

/// The names of devices in lower case.
pub open spec fn lowered_names(all: Seq<WasapiDeviceInfo>) -> Seq<Seq<char>> {
    all.map_values(|d: WasapiDeviceInfo| lowercased(d.name@))
}

/// Takes the first input device whose name holds `ReSpeaker`, in any case.
pub fn pick_respeaker_input_device(all: Vec<WasapiDeviceInfo>) -> (result: Result<
    WasapiDeviceInfo,
    String,
>)
    ensures
        match result {
            Ok(device) => exists|at: int| #[trigger]
                first_respeaker(lowered_names(all@), at) && all@[at] == device,
            Err(message) => {
                &&& forall|k: int|
                    0 <= k < all@.len() ==> !contains_text(
                        #[trigger] lowered_names(all@)[k],
                        "respeaker"@,
                    )
                &&& message@ == if all@.len() == 0 {
                    "未找到任何音频输入设备"@
                } else {
                    "未找到名称包含 ReSpeaker 的输入设备；请确认设备已连接"@
                }
            },
        },
{
    if all.len() == 0 {
        return Err("未找到任何音频输入设备".to_owned());
    }
    let mut lowered: Vec<String> = Vec::new();
    for i in 0..all.len()
        invariant
            crate::text::texts(lowered@) == lowered_names(all@).take(i as int),
    {
        let ghost earlier = lowered@;
        lowered.push(to_lower(all[i].name.as_str()));
        proof {
            assert(crate::text::texts(lowered@) =~= crate::text::texts(earlier).push(
                lowered_names(all@)[i as int],
            ));
            assert(crate::text::texts(lowered@) =~= lowered_names(all@).take(i + 1));
        }
    }
    assert(lowered_names(all@).take(all@.len() as int) =~= lowered_names(all@));
    match find_respeaker(lowered.as_slice()) {
        Some(at) => {
            let mut devices = all;
            assert(lowered_names(all@).len() == all@.len());
            Ok(devices.swap_remove(at))
        },
        None => {
            proof {
                assert(lowered_names(all@).len() == all@.len());
                assert forall|k: int| 0 <= k < all@.len() implies !contains_text(
                    #[trigger] lowered_names(all@)[k],
                    "respeaker"@,
                ) by {
                    assert(crate::text::texts(lowered@)[k] == lowered@[k]@);
                }
            }
            Err("未找到名称包含 ReSpeaker 的输入设备；请确认设备已连接".to_owned())
        },
    }
}

/// What an attempt to initialize COM came to: a code below zero is a failure.
pub fn init_com(code: i32) -> (result: Result<(), String>)
    ensures
        result is Ok <==> code >= 0,
        result matches Err(message) ==> message@ == "COM 初始化失败: HRESULT=0x"@ + hexadecimal(
            (code + 0x1_0000_0000) as nat,
        ),
{
    if code >= 0 {
        return Ok(());
    }
    let mut message = "COM 初始化失败: HRESULT=0x".to_owned();
    push_hexadecimal(&mut message, (code as i64 + 0x1_0000_0000) as u32);
    Err(message)
}

/// The device that the capture opens, found again by its identifier. Where the identifier of a
/// device could not be read it is not that one.
pub fn find_device(ids: &[Option<String>], id: &str, name: &str) -> (result: Result<usize, String>)
    ensures
        match result {
            Ok(at) => {
                &&& at < ids@.len()
                &&& ids@[at as int] matches Some(found) && found@ == id@
                &&& forall|k: int|
                    0 <= k < at ==> !((#[trigger] ids@[k]) matches Some(other) && other@ == id@)
            },
            Err(message) => {
                &&& forall|k: int|
                    0 <= k < ids@.len() ==> !((#[trigger] ids@[k]) matches Some(other) && other@
                        == id@)
                &&& message@ == "设备 "@ + name@ + " 已断开"@
            },
        },
{
    for i in 0..ids.len()
        invariant
            forall|k: int|
                0 <= k < i ==> !((#[trigger] ids@[k]) matches Some(other) && other@ == id@),
    {
        if let Some(found) = &ids[i] {
            if same_text(found.as_str(), id) {
                return Ok(i);
            }
        }
    }
    let mut message = "设备 ".to_owned();
    message.append(name);
    message.append(" 已断开");
    Err(message)
}

/// The period at which the device is run: its shortest one where it tells one.
pub fn capture_period(default_period: i64, min_period: i64) -> (period: i64)
    ensures
        period == if min_period > 0 {
            min_period
        } else {
            default_period
        },
{
    if min_period > 0 {
        min_period
    } else {
        default_period
    }
}

/// What is said when the device could not be opened: that something else holds it, or what the
/// system said.
pub fn open_failed(name: &str, code: Option<u32>, rate: u32, channels: u16, error: &str) -> (message:
    String)
    ensures
        message@ == if code == Some(DEVICE_IN_USE) {
            "设备 "@ + name@
                + " 正被其它程序占用（独占模式要求独占访问）。\n请关闭占用它的程序（如录音软件、系统默认监听）后重试。"@
        } else {
            "AudioClient 独占初始化失败（"@ + decimal(rate as nat) + "Hz/"@ + decimal(channels as nat)
                + "ch）: "@ + error@ + "\n该设备可能不支持此格式，或需先释放设备占用。"@
        },
{
    let in_use = match code {
        Some(c) => c == DEVICE_IN_USE,
        None => false,
    };
    if in_use {
        let mut message = "设备 ".to_owned();
        message.append(name);
        message.append(
            " 正被其它程序占用（独占模式要求独占访问）。\n请关闭占用它的程序（如录音软件、系统默认监听）后重试。",
        );
        return message;
    }
    let mut message = "AudioClient 独占初始化失败（".to_owned();
    push_decimal(&mut message, rate as u64);
    message.append("Hz/");
    push_decimal(&mut message, channels as u64);
    message.append("ch）: ");
    message.append(error);
    message.append("\n该设备可能不支持此格式，或需先释放设备占用。");
    message
}

/// The numbers that the next packet gets.
#[derive(Clone, Copy, Debug, PartialEq, Eq, Structural)]
pub struct PacketCounter {
    pub sequence: u64,
    pub total_frames: u64,
}

/// The samples of a packet: silence where the device says so, and else what it delivered.
pub open spec fn packet_samples(frames: nat, channels: nat, silent: bool, data: Seq<u8>) -> Seq<i16> {
    if silent {
        Seq::new(frames * channels, |i: int| 0i16)
    } else {
        bytes_samples(data.take((2 * (frames * channels)) as int))
    }
}

fn silence(count: usize) -> (samples: Vec<i16>)
    ensures
        samples@ == Seq::new(count as nat, |i: int| 0i16),
{
    let mut samples: Vec<i16> = Vec::new();
    for i in 0..count
        invariant
            samples@ == Seq::new(i as nat, |k: int| 0i16),
    {
        samples.push(0);
        assert(samples@ =~= Seq::new((i + 1) as nat, |k: int| 0i16));
    }
    samples
}

impl PacketCounter {
    /// A block carries the numbers of the counter, which then goes on behind it.
    pub open spec fn numbers(&self, block: CaptureBlock, after: PacketCounter) -> bool {
        &&& block.well_formed()
        &&& block.sequence == self.sequence
        &&& block.start_frame == self.total_frames
        &&& after.sequence == self.sequence + 1
        &&& after.total_frames == self.total_frames + block.frames
    }

    pub fn new() -> (counter: Self)
        ensures
            counter == (PacketCounter { sequence: 0, total_frames: 0 }),
    {
        PacketCounter { sequence: 0, total_frames: 0 }
    }

    /// Makes a block of a packet of `frames` frames, of which `data` holds the bytes. The data of a
    /// silent packet is not looked at.
    pub fn next_block(&mut self, frames: u32, channels: u16, silent: bool, data: &[u8]) -> (result:
        Result<CaptureBlock, String>)
        requires
            frames * channels <= usize::MAX,
            silent || 2 * (frames * channels) <= data@.len(),
            old(self).sequence < u64::MAX,
            old(self).total_frames + frames <= u64::MAX,
        ensures
            result is Ok <==> (frames * channels) % 6 == 0,
            channels == RESPEAKER_CHANNELS ==> (result matches Ok(block) && old(self).numbers(
                block,
                *final(self),
            )),
            match result {
                Ok(block) => {
                    &&& block.well_formed()
                    &&& block.sequence == old(self).sequence
                    &&& block.start_frame == old(self).total_frames
                    &&& block.samples@ == packet_samples(
                        frames as nat,
                        channels as nat,
                        silent,
                        data@,
                    )
                    &&& final(self).sequence == old(self).sequence + 1
                    &&& final(self).total_frames == old(self).total_frames + frames
                },
                Err(message) => {
                    &&& message@ == not_whole_frames_message((frames * channels) as nat)
                    &&& *final(self) == *old(self)
                },
            },
    {
        proof {
            assert(0 <= frames * channels <= 0xFFFF_FFFF * 0xFFFF) by (nonlinear_arith)
                requires
                    0 <= frames <= 0xFFFF_FFFF,
                    0 <= channels <= 0xFFFF,
            ;
        }
        let length: usize = data.len();
        let wide: u64 = frames as u64 * channels as u64;
        assert(wide == frames * channels);
        assert(silent || wide <= length);
        let count: usize = wide as usize;
        let samples = if silent {
            silence(count)
        } else {
            decode_samples(slice_subrange(data, 0, 2 * count))
        };
        proof {
            if !silent {
                assert(data@.subrange(0, 2 * count as int) =~= data@.take(2 * count as int));
            }
            assert((frames as nat) * (channels as nat) == count as nat);
            assert(samples@ =~= packet_samples(frames as nat, channels as nat, silent, data@));
            assert(samples@.len() == count);
            if channels == RESPEAKER_CHANNELS {
                assert(frames * channels == 6 * frames) by (nonlinear_arith)
                    requires
                        channels == 6,
                ;
                assert(count % 6 == 0 && count / 6 == frames);
            }
        }
        match CaptureBlock::from_samples(self.sequence, self.total_frames, samples) {
            Ok(block) => {
                self.sequence = self.sequence + 1;
                self.total_frames = self.total_frames + frames as u64;
                Ok(block)
            },
            Err(message) => Err(message),
        }
    }
}

/// The blocks of a capture follow one another without a gap: each starts at the frame after the
/// last one of the block before, and has the next number.
pub proof fn law_capture_is_contiguous(
    counters: Seq<PacketCounter>,
    blocks: Seq<CaptureBlock>,
    i: int,
)
    requires
        counters.len() == blocks.len() + 1,
        forall|k: int|
            0 <= k < blocks.len() ==> (#[trigger] counters[k]).numbers(blocks[k], counters[k + 1]),
        0 <= i < blocks.len() - 1,
    ensures
        blocks[i + 1].sequence == blocks[i].sequence + 1,
        blocks[i + 1].start_frame == blocks[i].start_frame + blocks[i].frames,
{
    assert(counters[i].numbers(blocks[i], counters[i + 1]));
    assert(counters[i + 1].numbers(blocks[i + 1], counters[i + 1 + 1]));
}

/// A worker that has taken in every block so far is waiting for just the next one.
pub proof fn law_worker_waits_for_the_next_block(
    counter: PacketCounter,
    block: CaptureBlock,
    after: PacketCounter,
    worker: crate::pipeline_worker::WorkerLoop,
)
    requires
        counter.numbers(block, after),
        worker.expected_sequence == counter.sequence,
        worker.expected_start_frame == counter.total_frames,
    ensures
        crate::pipeline_worker::follows(block, worker),
{
}

/// What became of a block that was offered to the consumer.
#[derive(Clone, Copy, Debug, PartialEq, Eq, Structural)]
pub enum CaptureSendOutcome {
    Sent,
    ConsumerStopped,
}

/// Judges what became of a block. A consumer that is too slow ends the capture; one that is gone
/// is in order only after a stop. `stop` is the sign to stop, which a full queue sets.
pub fn try_send_capture_block(outcome: SendOutcome, stop: &mut bool) -> (result: Result<
    CaptureSendOutcome,
    String,
>)
    ensures
        match outcome {
            SendOutcome::Sent => {
                &&& result == Ok::<CaptureSendOutcome, String>(CaptureSendOutcome::Sent)
                &&& *final(stop) == *old(stop)
            },
            SendOutcome::Full => {
                &&& result matches Err(message) && message@
                    == "WASAPI capture queue overrun: consumer too slow"@
                &&& *final(stop)
            },
            SendOutcome::Disconnected => {
                &&& *final(stop) == *old(stop)
                &&& match result {
                    Ok(sent) => *old(stop) && sent == CaptureSendOutcome::ConsumerStopped,
                    Err(message) => !*old(stop) && message@
                        == "capture consumer disconnected unexpectedly"@,
                }
            },
        },
{
    match outcome {
        SendOutcome::Sent => Ok(CaptureSendOutcome::Sent),
        SendOutcome::Full => {
            *stop = true;
            Err("WASAPI capture queue overrun: consumer too slow".to_owned())
        },
        SendOutcome::Disconnected => {
            if *stop {
                Ok(CaptureSendOutcome::ConsumerStopped)
            } else {
                Err("capture consumer disconnected unexpectedly".to_owned())
            }
        },
    }
}

/// A silent packet is as many zeros as it has samples, whatever its bytes; any other holds its
/// samples, two bytes each with the lowest first, and nothing of what comes behind them.
pub proof fn law_packets_hold_their_samples(
    frames: nat,
    channels: nat,
    silent: bool,
    data: Seq<u8>,
    i: int,
)
    requires
        silent || 2 * (frames * channels) <= data.len(),
        0 <= i < frames * channels,
    ensures
        packet_samples(frames, channels, silent, data).len() == frames * channels,
        silent ==> packet_samples(frames, channels, silent, data)[i] == 0,
        !silent ==> {
            let sample = packet_samples(frames, channels, silent, data)[i];
            let code = data[2 * i] + 0x100 * data[2 * i + 1];
            code == sample || code == sample + 0x1_0000
        },
{
    if !silent {
        crate::wav::law_samples_take_two_bytes(
            Seq::empty(),
            data.take((2 * (frames * channels)) as int),
            i,
        );
    }
}

/// The device that is taken speaks of the array in its name, and none before it does.
pub proof fn law_first_array_is_taken(lowered: Seq<Seq<char>>, at: int, i: int)
    requires
        first_respeaker(lowered, at),
        0 <= i < lowered.len(),
        exists|a: Seq<char>, b: Seq<char>| lowered[i] == #[trigger] (a + "respeaker"@ + b),
    ensures
        0 <= at <= i,
        contains_text(lowered[at], "respeaker"@),
{
    let (a, b) = choose|a: Seq<char>, b: Seq<char>|
        lowered[i] == #[trigger] (a + "respeaker"@ + b);
    let k = a.len() as int;
    assert(lowered[i].subrange(k, k + "respeaker"@.len()) =~= "respeaker"@);
    assert(crate::text::occurs_at(lowered[i], "respeaker"@, k));
    assert(contains_text(lowered[i], "respeaker"@));
}

} // verus!
