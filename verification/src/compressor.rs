//! The work on one file, and the list of files a batch has to work on.

use crate::codec::{image_size, resize_refusal, Picture, ResizeError};
use crate::paths::{
    extension_of, file_name, is_under, join_path, joined, lemma_mirror_keeps_file_name,
    mirrored_path, path_file_name, relative_to, strip_root,
};
use crate::utils::{
    determine_output_format, is_eligible_file, is_eligible_path, lemma_fitting_image_keeps_size,
    lemma_large_image_is_cut_to_fit, lemma_plan_is_bounded, output_format_of, planned_dimensions,
    within_one_pixel, ImageFormat,
};
use vstd::prelude::*;

verus! {

/// How an image is written, by the format of its output file.
#[derive(Clone, Copy, Debug, PartialEq, Eq, Structural)]
pub enum EncodeStrategy {
    /// One pass, at the quality the caller asked for.
    Jpeg { quality: u8 },
    /// A plain lossless pass, then a lossless optimisation of the written file
    /// in place.
    PngOptimized,
    /// One pass with the settings the format comes with; quality plays no part.
    FormatDefault { format: ImageFormat },
}

/// The strategy for a format. A format that is none of the known ones is
/// written as JPEG, as a path without known extension is.
pub open spec fn strategy_for(format: ImageFormat, quality: u8) -> EncodeStrategy {
    match format {
        ImageFormat::Jpeg | ImageFormat::Unsupported => EncodeStrategy::Jpeg { quality },
        ImageFormat::Png => EncodeStrategy::PngOptimized,
        _ => EncodeStrategy::FormatDefault { format },
    }
}

/// Picks the strategy by which an image of `format` is written.
pub fn encode_strategy(format: ImageFormat, quality: u8) -> (strategy: EncodeStrategy)
    ensures
        strategy == strategy_for(format, quality),
{
    match format {
        ImageFormat::Jpeg | ImageFormat::Unsupported => EncodeStrategy::Jpeg { quality },
        ImageFormat::Png => EncodeStrategy::PngOptimized,
        _ => EncodeStrategy::FormatDefault { format },
    }
}

/// The step of the work on one file that went wrong.
#[derive(Clone, Copy, Debug, PartialEq, Eq, Structural)]
pub enum FailureKind {
    /// The output directory could not be created.
    OutputDirCreate,
    /// The input could not be read.
    Io,
    /// The input could not be decoded, or decoded to an image without extent.
    Decode,
    /// The image could not be encoded or written.
    Encode,
    /// The written file could not be optimised.
    Optimize,
}

/// What a failure says, as plain values.
pub struct Failure {
    pub path: Seq<char>,
    pub kind: FailureKind,
    pub cause: Seq<char>,
}

/// The failure of the work on one file: the input it was about, the step
/// that failed, and the cause as the failing step worded it.
#[derive(Debug, PartialEq, Eq)]
pub struct CompressError {
    pub path: String,
    pub kind: FailureKind,
    pub cause: String,
}

impl View for CompressError {
    type V = Failure;

    open spec fn view(&self) -> Failure {
        Failure { path: self.path@, kind: self.kind, cause: self.cause@ }
    }
}

/// What a refusal to resample says of the file that was to be compressed:
/// an image without pixels was not decoded, any other cannot be encoded.
pub open spec fn refusal_kind(refusal: ResizeError) -> FailureKind {
    match refusal {
        ResizeError::EmptyImage => FailureKind::Decode,
        ResizeError::EmptyPlan | ResizeError::TooLarge => FailureKind::Encode,
    }
}

/// The cause given for a refusal to resample.
pub open spec fn refusal_cause(refusal: ResizeError) -> Seq<char> {
    match refusal {
        ResizeError::EmptyImage => "image has no pixels"@,
        ResizeError::EmptyPlan => "image is too narrow for the size limit"@,
        ResizeError::TooLarge => "image is too large to resample"@,
    }
}

impl Failure {
    /// The line that tells a user of the failure.
    pub open spec fn message(self) -> Seq<char> {
        "Failed to compress "@ + self.path + ": "@ + self.cause
    }
}

impl CompressError {
    /// A failure of `kind` on the input at `path`.
    pub fn new(path: &str, kind: FailureKind, cause: &str) -> (error: CompressError)
        ensures
            error@ == (Failure { path: path@, kind, cause: cause@ }),
    {
        CompressError { path: path.to_owned(), kind, cause: cause.to_owned() }
    }

    /// The line that tells a user of the failure.
    pub fn message(&self) -> (line: String)
        ensures
            line@ == self@.message(),
    {
        let mut line = "Failed to compress ".to_owned();
        line.append(self.path.as_str());
        line.append(": ");
        line.append(self.cause.as_str());
        line
    }
}

/// One file to compress and the place its copy goes to, as plain values.
pub struct TaskView {
    pub input_path: Seq<char>,
    pub output_path: Seq<char>,
}

/// One file to compress and the place its copy goes to.
#[derive(Debug, PartialEq, Eq)]
pub struct CompressionTask {
    pub input_path: String,
    pub output_path: String,
}

impl View for CompressionTask {
    type V = TaskView;

    open spec fn view(&self) -> TaskView {
        TaskView { input_path: self.input_path@, output_path: self.output_path@ }
    }
}

/// What is decided for one decoded image: the size it is resampled to and the
/// way it is written. The size is that of the images themselves, as the
/// codec reports it, and it is the planned one: an image that fits keeps its
/// size, and a larger one has its longer side at `max_dimension` and its
/// shorter side in proportion, rounded down.
pub open spec fn compression_decided(
    picture: Picture,
    output_path: Seq<char>,
    quality: u8,
    max_dimension: u32,
    resized: Picture,
    strategy: EncodeStrategy,
) -> bool {
    let (width, height) = picture.dimensions();
    let (new_width, new_height) = resized.dimensions();
    &&& image_size(picture.spec_pixels()) == (picture.spec_width(), picture.spec_height())
    &&& image_size(resized.spec_pixels()) == (resized.spec_width(), resized.spec_height())
    &&& resized.dimensions() == planned_dimensions(width, height, max_dimension as nat)
    &&& 1 <= new_width <= width && 1 <= new_height <= height
    &&& new_width <= max_dimension && new_height <= max_dimension
    &&& width <= max_dimension && height <= max_dimension ==> resized.dimensions()
        == picture.dimensions()
    &&& (width > max_dimension || height > max_dimension) && width >= height ==> new_width
        == max_dimension && within_one_pixel(new_height, new_width, height, width)
    &&& (width > max_dimension || height > max_dimension) && width < height ==> new_height
        == max_dimension && within_one_pixel(new_width, new_height, width, height)
    &&& strategy == strategy_for(output_format_of(output_path), quality)
}

/// What is decided for an image depends on the image, the output path and
/// the two settings alone: deciding again gives the same size and the same
/// strategy.
pub proof fn lemma_decision_is_repeatable(
    picture: Picture,
    output_path: Seq<char>,
    quality: u8,
    max_dimension: u32,
    first: (Picture, EncodeStrategy),
    second: (Picture, EncodeStrategy),
)
    requires
        compression_decided(picture, output_path, quality, max_dimension, first.0, first.1),
        compression_decided(picture, output_path, quality, max_dimension, second.0, second.1),
    ensures
        image_size(first.0.spec_pixels()) == image_size(second.0.spec_pixels()),
        first.0.dimensions() == second.0.dimensions(),
        first.1 == second.1,
{
}

/// The part of compressing one file that lies between decoding and writing:
/// resamples `picture` to the size planned under `max_dimension` and picks the
/// way it is written to `task.output_path`. Where the picture cannot be
/// resampled, the failure names the input and the reason.
pub fn compress_image(
    picture: &Picture,
    task: &CompressionTask,
    quality: u8,
    max_dimension: u32,
) -> (outcome: Result<(Picture, EncodeStrategy), CompressError>)
    ensures
        outcome is Ok <==> resize_refusal(picture.spec_width(), picture.spec_height(), max_dimension)
            is None,
        outcome matches Ok((resized, strategy)) ==> compression_decided(
            *picture,
            task@.output_path,
            quality,
            max_dimension,
            resized,
            strategy,
        ),
        outcome matches Err(error) ==> {
            let refusal = resize_refusal(
                picture.spec_width(),
                picture.spec_height(),
                max_dimension,
            )->0;
            error@ == (Failure {
                path: task@.input_path,
                kind: refusal_kind(refusal),
                cause: refusal_cause(refusal),
            })
        },
{
    proof {
        let (width, height) = picture.dimensions();
        lemma_plan_is_bounded(width, height, max_dimension as nat);
        if width <= max_dimension && height <= max_dimension {
            lemma_fitting_image_keeps_size(width, height, max_dimension as nat);
        } else {
            lemma_large_image_is_cut_to_fit(width, height, max_dimension as nat);
        }
    }
    match picture.resize_to_fit(max_dimension) {
        Ok(resized) => {
            let format = determine_output_format(task.output_path.as_str());
            Ok((resized, encode_strategy(format, quality)))
        },
        Err(refusal) => {
            let input = task.input_path.as_str();
            Err(
                match refusal {
                    ResizeError::EmptyImage => CompressError::new(
                        input,
                        FailureKind::Decode,
                        "image has no pixels",
                    ),
                    ResizeError::EmptyPlan => CompressError::new(
                        input,
                        FailureKind::Encode,
                        "image is too narrow for the size limit",
                    ),
                    ResizeError::TooLarge => CompressError::new(
                        input,
                        FailureKind::Encode,
                        "image is too large to resample",
                    ),
                },
            )
        },
    }
}

/// The task that a file found under the input root gives rise to: none
/// unless the file is eligible and what is left of its path below the root
/// names a file.
pub open spec fn task_for(input_root: Seq<char>, output_root: Seq<char>, file: Seq<char>) -> Option<
    TaskView,
> {
    if is_eligible_path(file) && is_under(input_root, file) && file_name(
        relative_to(input_root, file)->0,
    ) is Some {
        Some(
            TaskView {
                input_path: file,
                output_path: joined(output_root, relative_to(input_root, file)->0),
            },
        )
    } else {
        None
    }
}

/// The tasks of a batch: one for each file that gives rise to one, in the
/// order of the files.
pub open spec fn planned_tasks(
    input_root: Seq<char>,
    output_root: Seq<char>,
    files: Seq<Seq<char>>,
) -> Seq<TaskView>
    decreases files.len(),
{
    if files.len() == 0 {
        seq![]
    } else {
        let earlier = planned_tasks(input_root, output_root, files.drop_last());
        match task_for(input_root, output_root, files.last()) {
            Some(task) => earlier.push(task),
            None => earlier,
        }
    }
}

/// The paths of a list of files, as plain values.
pub open spec fn path_views(files: Seq<String>) -> Seq<Seq<char>> {
    files.map_values(|file: String| file@)
}

/// A list of tasks, as plain values.
pub open spec fn task_views(tasks: Seq<CompressionTask>) -> Seq<TaskView> {
    tasks.map_values(|task: CompressionTask| task@)
}

/// The task of a file is made of that file and of its place in the mirrored
/// tree, where it keeps its extension and so its format.
pub proof fn lemma_task_mirrors_its_file(
    input_root: Seq<char>,
    output_root: Seq<char>,
    file: Seq<char>,
)
    requires
        task_for(input_root, output_root, file) is Some,
    ensures
        ({
            let task = task_for(input_root, output_root, file)->0;
            &&& task.input_path == file
            &&& is_eligible_path(file)
            &&& mirrored_path(input_root, output_root, file) == Some(task.output_path)
            &&& extension_of(task.output_path) == extension_of(file)
            &&& output_format_of(task.output_path) == output_format_of(file)
            &&& output_format_of(task.output_path) != ImageFormat::Unsupported
        }),
{
    lemma_mirror_keeps_file_name(input_root, output_root, file);
    crate::utils::lemma_eligible_iff_known_format(extension_of(file)->0);
}

/// Every task of a batch is the task of one of its files, and no file gives
/// more than one: tasks are never more than files.
pub proof fn lemma_tasks_come_from_files(
    input_root: Seq<char>,
    output_root: Seq<char>,
    files: Seq<Seq<char>>,
)
    ensures
        planned_tasks(input_root, output_root, files).len() <= files.len(),
        forall|k: int|
            0 <= k < planned_tasks(input_root, output_root, files).len() ==> exists|i: int|
                0 <= i < files.len() && task_for(input_root, output_root, #[trigger] files[i])
                    == Some(#[trigger] planned_tasks(input_root, output_root, files)[k]),
    decreases files.len(),
{
    if files.len() > 0 {
        let front = files.drop_last();
        lemma_tasks_come_from_files(input_root, output_root, front);
        let tasks = planned_tasks(input_root, output_root, files);
        let earlier = planned_tasks(input_root, output_root, front);
        assert forall|k: int| 0 <= k < tasks.len() implies exists|i: int|
            0 <= i < files.len() && task_for(input_root, output_root, #[trigger] files[i]) == Some(
                #[trigger] tasks[k],
            ) by {
            if k < earlier.len() {
                let i = choose|i: int|
                    0 <= i < front.len() && task_for(input_root, output_root, #[trigger] front[i])
                        == Some(earlier[k]);
                assert(front[i] == files[i]);
                assert(tasks[k] == earlier[k]);
            } else {
                let i = files.len() - 1;
                assert(task_for(input_root, output_root, files[i]) == Some(tasks[k]));
            }
        }
    }
}

/// Every file that gives rise to a task has that task in the batch.
pub proof fn lemma_no_file_is_left_out(
    input_root: Seq<char>,
    output_root: Seq<char>,
    files: Seq<Seq<char>>,
    i: int,
)
    requires
        0 <= i < files.len(),
        task_for(input_root, output_root, files[i]) is Some,
    ensures
        planned_tasks(input_root, output_root, files).contains(
            task_for(input_root, output_root, files[i])->0,
        ),
    decreases files.len(),
{
    let tasks = planned_tasks(input_root, output_root, files);
    let front = files.drop_last();
    let earlier = planned_tasks(input_root, output_root, front);
    if i == files.len() - 1 {
        assert(tasks[tasks.len() - 1] == task_for(input_root, output_root, files[i])->0);
    } else {
        lemma_no_file_is_left_out(input_root, output_root, front, i);
        let task = task_for(input_root, output_root, front[i])->0;
        let k = choose|k: int| 0 <= k < earlier.len() && earlier[k] == task;
        assert(tasks[k] == task);
    }
}

/// Makes the list of tasks of a batch from the files found under
/// `input_dir`: each eligible file below it, with its place under
/// `output_dir`.
pub fn process_directory(input_dir: &str, output_dir: &str, files: &Vec<String>) -> (tasks: Vec<
    CompressionTask,
>)
    ensures
        task_views(tasks@) == planned_tasks(input_dir@, output_dir@, path_views(files@)),
{
    let mut tasks: Vec<CompressionTask> = Vec::new();
    let ghost paths = path_views(files@);
    assert(paths.take(0) =~= Seq::<Seq<char>>::empty());
    for i in 0..files.len()
        invariant
            paths == path_views(files@),
            task_views(tasks@) =~= planned_tasks(input_dir@, output_dir@, paths.take(i as int)),
    {
        let file = files[i].as_str();
        assert(paths.take(i + 1).drop_last() =~= paths.take(i as int));
        assert(paths.take(i + 1).last() == file@);
        if is_eligible_file(file) {
            match strip_root(input_dir, file) {
                Some(relative) => {
                    if path_file_name(relative.as_str()).is_some() {
                        let ghost before = task_views(tasks@);
                        let task = CompressionTask {
                            input_path: file.to_owned(),
                            output_path: join_path(output_dir, relative.as_str()),
                        };
                        assert(task_for(input_dir@, output_dir@, file@) == Some(task@));
                        tasks.push(task);
                        assert(task_views(tasks@) =~= before.push(task@));
                    }
                },
                None => {},
            }
        }
    }
    assert(paths.take(files.len() as int) =~= paths);
    tasks
}

} // verus!
