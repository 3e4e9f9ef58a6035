use vstd::prelude::*;

use usvg_text_layout::TreeTextToPath;

use crate::palette::{entry_views, parsed_entries, Palette, PaletteEntry};
use crate::paths::{has_vector_extension, is_vector_document, join, join_path, output_file, output_path};
use crate::substitute::{apply, substituted};
use crate::Args;

verus! {

#[verifier::external_type_specification]
#[verifier::external_body]
pub struct ExFontDatabase(usvg_text_layout::fontdb::Database);

#[verifier::external_type_specification]
#[verifier::external_body]
pub struct ExTree(usvg::Tree);

#[verifier::external_type_specification]
#[verifier::external_body]
pub struct ExUsvgError(usvg::Error);

#[verifier::external_type_specification]
#[verifier::external_body]
pub struct ExPixmap(tiny_skia::Pixmap);

/// Why one (document, color) job did not produce its image.
#[derive(PartialEq, Eq, Structural, Clone, Copy, Debug)]
pub enum RenderError {
    /// The file does not have the vector-format extension.
    UnsupportedFormat,
    /// The document could not be read.
    ReadError,
    /// The document text is not a document the parser accepts.
    ParseError,
    /// No image of the requested size could be drawn.
    RasterError,
    /// The image could not be encoded as PNG or written.
    WriteError,
}

/// One image to produce: where it goes and the color it applies.
pub struct RenderJob {
    pub output: String,
    pub color: String,
}

/// How one job ended.
#[derive(PartialEq, Eq, Structural, Clone, Copy, Debug)]
pub enum JobOutcome {
    /// Its output already existed and was left alone.
    Skipped,
    /// Its image was written.
    Written,
    /// It failed.
    Failed(RenderError),
}

/// The running count after one more job ends with `outcome`: one more for
/// each image written, kept at `u64::MAX` once it gets there.
pub open spec fn count_after(count: u64, outcome: JobOutcome) -> u64 {
    if outcome == JobOutcome::Written && count < u64::MAX {
        (count + 1) as u64
    } else {
        count
    }
}

/// The running count after jobs end with `outcomes`, in order.
pub open spec fn count_after_all(count: u64, outcomes: Seq<JobOutcome>) -> u64
    decreases outcomes.len(),
{
    if outcomes.len() == 0 {
        count
    } else {
        count_after(count_after_all(count, outcomes.drop_last()), outcomes.last())
    }
}

/// Running a document again while all its outputs are still there skips
/// every job and leaves the count as it was.
pub proof fn law_document_rerun_is_noop(count: u64, outcomes: Seq<JobOutcome>)
    requires
        forall|i: int| 0 <= i < outcomes.len() ==> outcomes[i] == JobOutcome::Skipped,
    ensures
        count_after_all(count, outcomes) == count,
    decreases outcomes.len(),
{
    if outcomes.len() > 0 {
        law_document_rerun_is_noop(count, outcomes.drop_last());
    }
}

/// Running a document whose outputs were deleted, with every image written,
/// counts one image per job.
pub proof fn law_document_after_delete_counts_each(count: u64, outcomes: Seq<JobOutcome>)
    requires
        forall|i: int| 0 <= i < outcomes.len() ==> outcomes[i] == JobOutcome::Written,
        count + outcomes.len() <= u64::MAX,
    ensures
        count_after_all(count, outcomes) == count + outcomes.len(),
    decreases outcomes.len(),
{
    if outcomes.len() > 0 {
        law_document_after_delete_counts_each(count, outcomes.drop_last());
    }
}

/// The overwrite policy: a job whose output already exists is not run again.
pub open spec fn needs_render(output_exists: bool) -> bool {
    !output_exists
}

/// Whether a job whose output does or does not exist yet is run.
pub fn should_render(output_exists: bool) -> (r: bool)
    ensures
        r == needs_render(output_exists),
{
    !output_exists
}

/// Running a job whose output is already there leaves the count alone;
/// running it again once the output is gone, and writing the image, counts
/// one more image.
pub proof fn law_rerun_counts_only_after_delete(count: u64)
    requires
        count < u64::MAX,
    ensures
        !needs_render(true),
        count_after(count, JobOutcome::Skipped) == count,
        needs_render(false),
        count_after(count, JobOutcome::Written) == count + 1,
{
}

/// A job that fails, a document of another format among them, leaves the
/// count of written images as it was.
pub proof fn law_failed_job_keeps_count(count: u64, e: RenderError)
    ensures
        count_after(count, JobOutcome::Failed(e)) == count,
{
}

/// Whether usvg accepts `text` as a document: it is well-formed XML, within
/// usvg's element limit, with a valid size.
pub uninterp spec fn svg_accepts(text: Seq<char>) -> bool;

/// The largest image width a pixel buffer can have: four bytes a pixel must
/// fit a row in 31 bits.
pub const MAX_WIDTH: u32 = 536870911;

/// Whether a pixel buffer of `width` x `height` can be had.
pub open spec fn size_drawable(width: u32, height: u32) -> bool {
    0 < width && width <= MAX_WIDTH && 0 < height
}

/// Relies on usvg::Tree::from_data with default options and the given
/// resource folder: parses the document text into a tree. Whether it
/// succeeds depends on the text alone; files the document refers to only
/// decide whether their images appear.
#[verifier::external_body]
fn parse_tree(text: &str, resources_dir: Option<String>) -> (r: Result<usvg::Tree, usvg::Error>)
    ensures
        r is Ok <==> svg_accepts(text@),
{
    let mut opt = usvg::Options::default();
    opt.resources_dir = resources_dir.map(std::path::PathBuf::from);
    usvg::Tree::from_data(text.as_bytes(), &opt)
}

/// Relies on usvg_text_layout's TreeTextToPath::convert_text: replaces the
/// tree's text elements by paths drawn with the given fonts.
#[verifier::external_body]
fn text_to_paths(tree: &mut usvg::Tree, fonts: &usvg_text_layout::fontdb::Database) {
    tree.convert_text(fonts);
}

/// Relies on tiny_skia::Pixmap::new: a blank pixel buffer, had exactly when
/// no side is zero and a row of four-byte pixels fits in 31 bits.
#[verifier::external_body]
fn new_pixmap(width: u32, height: u32) -> (r: Option<tiny_skia::Pixmap>)
    ensures
        r is Some <==> size_drawable(width, height),
{
    tiny_skia::Pixmap::new(width, height)
}

/// Relies on resvg::render: draws the tree scaled to fit `width` x `height`,
/// which succeeds whenever both are positive.
#[verifier::external_body]
fn draw(tree: &usvg::Tree, width: u32, height: u32, pixmap: &mut tiny_skia::Pixmap) -> (r: bool)
    ensures
        0 < width && 0 < height ==> r,
{
    resvg::render(
        tree,
        usvg::FitTo::Size(width, height),
        tiny_skia::Transform::default(),
        pixmap.as_mut(),
    ).is_some()
}

/// Relies on tiny_skia::Pixmap::encode_png: the buffer as PNG bytes, None
/// where the encoder fails.
#[verifier::external_body]
fn encode_png(pixmap: &tiny_skia::Pixmap) -> (r: Option<Vec<u8>>) {
    pixmap.encode_png().ok()
}

/// Renders documents in every color of a palette and counts the images written.
pub struct Renderer {
    pub fontdb: usvg_text_layout::fontdb::Database,
    pub palette: Palette,
    pub output: String,
    pub width: u32,
    pub height: u32,
    pub count: u64,
}

impl Renderer {
    /// Whether `jobs` render the document named `file_name` once in each
    /// palette color, in palette order, into `output/<label>/<stem>.png`.
    pub open spec fn plans(&self, file_name: Seq<char>, jobs: Seq<RenderJob>) -> bool {
        &&& jobs.len() == self.palette.entries_view().len()
        &&& forall|i: int|
            0 <= i < jobs.len() ==> {
                &&& #[trigger] jobs[i].output@ == output_file(
                    self.output@,
                    self.palette.entries_view()[i].0,
                    file_name,
                )
                &&& jobs[i].color@ == self.palette.entries_view()[i].1
            }
    }

    /// A renderer for the palette, output folder and image size of `args`,
    /// drawing text with `fontdb`, with nothing rendered yet.
    pub fn new(args: &Args, fontdb: usvg_text_layout::fontdb::Database) -> (r: Renderer)
        ensures
            r.palette.entries_view() == parsed_entries(args.colors@),
            r.palette is Object <==> args.colors@.contains(':'),
            r.output@ == args.output@,
            r.width == args.width,
            r.height == args.height,
            r.count == 0,
    {
        Renderer {
            fontdb,
            palette: Palette::parse(args.colors.as_str()),
            output: args.output.clone(),
            width: args.width,
            height: args.height,
            count: 0,
        }
    }

    /// The output folders, one per palette entry and in palette order, that
    /// must exist before the first image is written.
    pub fn output_dirs(&self) -> (r: Vec<String>)
        ensures
            r@.len() == self.palette.entries_view().len(),
            forall|i: int|
                0 <= i < r@.len() ==> #[trigger] r@[i]@ == join_path(
                    self.output@,
                    self.palette.entries_view()[i].0,
                ),
    {
        let es = self.palette.entries();
        let mut out: Vec<String> = Vec::new();
        let mut i: usize = 0;
        while i < es.len()
            invariant
                i <= es@.len(),
                entry_views(es@) == self.palette.entries_view(),
                out@.len() == i,
                forall|k: int|
                    0 <= k < i ==> #[trigger] out@[k]@ == join_path(
                        self.output@,
                        self.palette.entries_view()[k].0,
                    ),
            decreases es@.len() - i,
        {
            assert(entry_views(es@)[i as int].0 == es@[i as int].label@);
            out.push(join(self.output.as_str(), es[i].label.as_str()));
            i = i + 1;
        }
        out
    }

    /// The jobs that render the document named `file_name` in every palette
    /// color, in palette order; `UnsupportedFormat` where the name does not
    /// have the vector-format extension.
    pub fn render(&self, file_name: &str) -> (r: Result<Vec<RenderJob>, RenderError>)
        ensures
            !has_vector_extension(file_name@) ==> r == Err::<Vec<RenderJob>, RenderError>(
                RenderError::UnsupportedFormat,
            ),
            has_vector_extension(file_name@) ==> r is Ok,
            r is Ok ==> self.plans(file_name@, r->Ok_0@),
    {
        if !is_vector_document(file_name) {
            return Err(RenderError::UnsupportedFormat);
        }
        let es = self.palette.entries();
        let mut jobs: Vec<RenderJob> = Vec::new();
        let mut i: usize = 0;
        while i < es.len()
            invariant
                i <= es@.len(),
                has_vector_extension(file_name@),
                entry_views(es@) == self.palette.entries_view(),
                jobs@.len() == i,
                forall|k: int|
                    0 <= k < i ==> {
                        &&& #[trigger] jobs@[k].output@ == output_file(
                            self.output@,
                            self.palette.entries_view()[k].0,
                            file_name@,
                        )
                        &&& jobs@[k].color@ == self.palette.entries_view()[k].1
                    },
            decreases es@.len() - i,
        {
            let e: &PaletteEntry = &es[i];
            assert(entry_views(es@)[i as int] == (e.label@, e.color@));
            let job = RenderJob {
                output: output_path(self.output.as_str(), e.label.as_str(), file_name),
                color: e.color.clone(),
            };
            jobs.push(job);
            i = i + 1;
        }
        Ok(jobs)
    }

    /// The jobs for one entry of the input folder: none for a sub-folder,
    /// which is never walked into; those of `render` for a file.
    pub fn render_entry(&self, is_dir: bool, file_name: &str) -> (r: Option<
        Result<Vec<RenderJob>, RenderError>,
    >)
        ensures
            is_dir ==> r is None,
            !is_dir ==> r is Some,
            !is_dir && !has_vector_extension(file_name@) ==> r == Some(
                Err::<Vec<RenderJob>, RenderError>(RenderError::UnsupportedFormat),
            ),
            !is_dir && has_vector_extension(file_name@) ==> r->Some_0 is Ok
                && self.plans(file_name@, r->Some_0->Ok_0@),
    {
        if is_dir {
            None
        } else {
            Some(self.render(file_name))
        }
    }

    /// The PNG image of the document text `source` with the marker replaced
    /// by `color`, drawn at the renderer's size; files it refers to are looked
    /// up under `resources_dir`. `ParseError` where usvg rejects the
    /// substituted text, `RasterError` where no buffer of the size can be had,
    /// `WriteError` where the encoder fails.
    pub fn render_one(&self, source: &str, color: &str, resources_dir: Option<String>) -> (r: Result<
        Vec<u8>,
        RenderError,
    >)
        ensures
            r == Err::<Vec<u8>, RenderError>(RenderError::ParseError) <==> !svg_accepts(
                substituted(source@, color@),
            ),
            r == Err::<Vec<u8>, RenderError>(RenderError::RasterError) <==> svg_accepts(
                substituted(source@, color@),
            ) && !size_drawable(self.width, self.height),
            r is Err ==> r->Err_0 == RenderError::ParseError || r->Err_0 == RenderError::RasterError
                || r->Err_0 == RenderError::WriteError,
            svg_accepts(substituted(source@, color@)) && size_drawable(self.width, self.height)
                ==> r is Ok || r == Err::<Vec<u8>, RenderError>(RenderError::WriteError),
    {
        let text = apply(source, color);
        let mut tree = match parse_tree(text.as_str(), resources_dir) {
            Ok(t) => t,
            Err(_) => return Err(RenderError::ParseError),
        };
        text_to_paths(&mut tree, &self.fontdb);
        let mut pixmap = match new_pixmap(self.width, self.height) {
            Some(p) => p,
            None => return Err(RenderError::RasterError),
        };
        if !draw(&tree, self.width, self.height, &mut pixmap) {
            return Err(RenderError::RasterError);
        }
        match encode_png(&pixmap) {
            Some(bytes) => Ok(bytes),
            None => Err(RenderError::WriteError),
        }
    }

    /// Counts the ends of a document's jobs, in order.
    pub fn record_all(&mut self, outcomes: &Vec<JobOutcome>)
        ensures
            final(self).count == count_after_all(old(self).count, outcomes@),
            final(self).palette == old(self).palette,
            final(self).output == old(self).output,
            final(self).width == old(self).width,
            final(self).height == old(self).height,
    {
        let mut i: usize = 0;
        while i < outcomes.len()
            invariant
                i <= outcomes@.len(),
                self.count == count_after_all(old(self).count, outcomes@.take(i as int)),
                self.palette == old(self).palette,
                self.output == old(self).output,
                self.width == old(self).width,
                self.height == old(self).height,
            decreases outcomes@.len() - i,
        {
            assert(outcomes@.take(i + 1).drop_last() =~= outcomes@.take(i as int));
            self.record(outcomes[i]);
            i = i + 1;
        }
        assert(outcomes@.take(outcomes@.len() as int) =~= outcomes@);
    }

    /// Counts the end of one job.
    pub fn record(&mut self, outcome: JobOutcome)
        ensures
            final(self).count == count_after(old(self).count, outcome),
            final(self).palette == old(self).palette,
            final(self).output == old(self).output,
            final(self).width == old(self).width,
            final(self).height == old(self).height,
    {
        if outcome == JobOutcome::Written && self.count < u64::MAX {
            self.count = self.count + 1;
        }
    }
}

} // verus!
