//! Output routing: where one fetched payload goes.
//!
//! One sink is configured for a whole batch run: either the output
//! directory, or an external helper process fed on its standard input.
//! This module decides the file path, the helper's argument vector and
//! how a helper's exit is judged; performing the write or the spawn is
//! the caller's I/O.

use vstd::prelude::*;

use crate::ids;
use crate::plan::TrackInfo;
use crate::plan::TrackInfoView;
use crate::plan::item_file_name;
use crate::plan::output_file_name;
use crate::resolve::strings_view;

verus! {

/// The sink configured for a batch run.
pub enum SinkConfig {
    /// Write each payload to the output directory.
    File,
    /// Feed each payload to this external program on its standard
    /// input.
    Process { program: String },
}

/// The one I/O action that delivers a payload.
pub enum DeliveryAction {
    /// Write the payload to this path.
    WriteFile { path: String },
    /// Run this program with these arguments and write the payload to
    /// its standard input.
    RunHelper { program: String, args: Vec<String> },
}

/// Why delivery of one payload failed.
#[derive(Clone, Copy, PartialEq, Eq, Structural, Debug)]
pub enum DeliveryError {
    /// The file write could not complete.
    WriteFailed,
    /// The helper process could not be spawned or fed.
    HelperStartFailed,
    /// The helper process exited with a non-zero status.
    HelperFailed,
}

/// The fixed output directory prefix of every written file.
pub open spec fn output_dir_prefix() -> Seq<char> {
    "output/"@
}

/// The helper's argument vector: identifier, title, album, then each
/// artist in order.
pub open spec fn helper_args_spec(iv: TrackInfoView) -> Seq<Seq<char>> {
    seq![ids::base62_encode(iv.song_id.id as int), iv.track.name, iv.album] + iv.artists
}

/// The path of one file name under the fixed output directory.
pub fn output_path(fname: &str) -> (r: String)
    ensures
        r@ == output_dir_prefix() + fname@,
{
    let mut p = String::new();
    p.append("output/");
    p.append(fname);
    p
}

/// Build the helper's argument vector for one work item.
pub fn helper_args(item: &TrackInfo) -> (r: Vec<String>)
    ensures
        strings_view(r@) == helper_args_spec(item@),
{
    let mut args: Vec<String> = Vec::new();
    args.push(ids::to_base62(item.song_id));
    args.push(item.track.name.clone());
    args.push(item.album.clone());
    let mut i: usize = 0;
    proof {
        assert(strings_view(args@) =~= seq![
            ids::base62_encode(item.song_id.id as int),
            item.track.name@,
            item.album@,
        ] + item@.artists.take(0));
    }
    while i < item.artists.len()
        invariant
            0 <= i <= item.artists.len(),
            strings_view(args@) == seq![
                ids::base62_encode(item.song_id.id as int),
                item.track.name@,
                item.album@,
            ] + item@.artists.take(i as int),
        decreases item.artists.len() - i,
    {
        let ghost pre = args@;
        args.push(item.artists[i].clone());
        proof {
            assert(strings_view(args@) =~= strings_view(pre).push(item.artists@[i as int]@));
            assert(item@.artists.take(i + 1) =~= item@.artists.take(i as int).push(
                item.artists@[i as int]@,
            ));
            assert(strings_view(args@) =~= seq![
                ids::base62_encode(item.song_id.id as int),
                item.track.name@,
                item.album@,
            ] + item@.artists.take(i + 1));
        }
        i = i + 1;
    }
    proof {
        assert(item@.artists.take(item.artists@.len() as int) =~= item@.artists);
        assert(strings_view(args@) =~= helper_args_spec(item@));
    }
    args
}

/// Decide the delivery action for one work item under the configured
/// sink: the sanitized path under the output directory, or the helper
/// invocation with its full argument vector.
pub fn plan_delivery(sink: &SinkConfig, item: &TrackInfo) -> (r: DeliveryAction)
    ensures
        match sink {
            SinkConfig::File => r matches DeliveryAction::WriteFile { path } && path@
                == output_dir_prefix() + item_file_name(item@),
            SinkConfig::Process { program } => r matches DeliveryAction::RunHelper {
                program: p2,
                args,
            } && p2@ == program@ && strings_view(args@) == helper_args_spec(item@),
        },
{
    match sink {
        SinkConfig::File => {
            let fname = output_file_name(&item.artists, item.track.name.as_str(), item.song_id);
            DeliveryAction::WriteFile { path: output_path(fname.as_str()) }
        },
        SinkConfig::Process { program } => DeliveryAction::RunHelper {
            program: program.clone(),
            args: helper_args(item),
        },
    }
}

/// Judge a helper process's exit: success is exit code zero; any other
/// exit, or an exit without a code, fails the delivery.
pub fn classify_helper_exit(code: Option<i32>) -> (r: Result<(), DeliveryError>)
    ensures
        match r {
            Ok(_) => code == Some(0i32),
            Err(e) => code != Some(0i32) && e == DeliveryError::HelperFailed,
        },
{
    match code {
        Some(c) => {
            if c == 0 {
                Ok(())
            } else {
                Err(DeliveryError::HelperFailed)
            }
        },
        None => Err(DeliveryError::HelperFailed),
    }
}

} // verus!
