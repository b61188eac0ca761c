//! Screen capture: captured frames, the choice of monitor, and the command
//! line of the encoder that frames are piped to.
use vstd::prelude::*;
use crate::editor::export::string_views;
use crate::text::{dec, push_dec, push_str, string_from_chars};

verus! {

/// A single captured video frame together with its presentation timestamp.
pub struct FrameData {
    pub width: u32,
    pub height: u32,
    /// Raw RGBA pixel data (row-major, top-to-bottom).
    pub rgba: Vec<u8>,
    /// Milliseconds since the recording session started.
    pub timestamp_ms: u64,
}

/// The monitor captured for a requested index among `count` monitors: the
/// index itself, or the last monitor when it is out of range; none when
/// there is no monitor.
pub fn monitor_slot(index: usize, count: usize) -> (r: Option<usize>)
    ensures
        count == 0 ==> r is None,
        count > 0 ==> r == Some(if index < count { index } else { (count - 1) as usize }),
{
    if count == 0 {
        None
    } else if index < count {
        Some(index)
    } else {
        Some(count - 1)
    }
}

/// The encoder's arguments: raw RGBA frames of the given size and rate on
/// standard input, encoded with libx264 to `output`.
pub open spec fn encoder_args_of(width: u32, height: u32, fps: u32, output: Seq<char>) -> Seq<Seq<char>> {
    seq![
        "-y"@,
        "-f"@,
        "rawvideo"@,
        "-pixel_format"@,
        "rgba"@,
        "-video_size"@,
        dec(width as nat) + "x"@ + dec(height as nat),
        "-framerate"@,
        dec(fps as nat),
        "-i"@,
        "pipe:0"@,
        "-c:v"@,
        "libx264"@,
        "-pix_fmt"@,
        "yuv420p"@,
        "-preset"@,
        "ultrafast"@,
        output,
    ]
}

/// The arguments of the ffmpeg process that encodes captured frames.
pub fn encoder_args(width: u32, height: u32, fps: u32, output: &str) -> (r: Vec<String>)
    ensures
        string_views(r@) == encoder_args_of(width, height, fps, output@),
{
    let mut size: Vec<char> = Vec::new();
    push_dec(&mut size, width as u64);
    push_str(&mut size, "x");
    push_dec(&mut size, height as u64);
    let mut rate: Vec<char> = Vec::new();
    push_dec(&mut rate, fps as u64);
    let mut r: Vec<String> = Vec::new();
    r.push(String::from_str("-y"));
    r.push(String::from_str("-f"));
    r.push(String::from_str("rawvideo"));
    r.push(String::from_str("-pixel_format"));
    r.push(String::from_str("rgba"));
    r.push(String::from_str("-video_size"));
    r.push(string_from_chars(&size));
    r.push(String::from_str("-framerate"));
    r.push(string_from_chars(&rate));
    r.push(String::from_str("-i"));
    r.push(String::from_str("pipe:0"));
    r.push(String::from_str("-c:v"));
    r.push(String::from_str("libx264"));
    r.push(String::from_str("-pix_fmt"));
    r.push(String::from_str("yuv420p"));
    r.push(String::from_str("-preset"));
    r.push(String::from_str("ultrafast"));
    r.push(String::from_str(output));
    assert(string_views(r@) =~= encoder_args_of(width, height, fps, output@));
    r
}

} // verus!
