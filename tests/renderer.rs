use svg2colored_png::renderer::{should_render, JobOutcome, RenderError, RenderJob, Renderer};
use svg2colored_png::Args;
use usvg_text_layout::fontdb::Database;

const ICON: &str = "<svg xmlns=\"http://www.w3.org/2000/svg\" width=\"16\" height=\"16\" viewBox=\"0 0 16 16\"><rect width=\"16\" height=\"16\" fill=\"currentColor\"/></svg>";

fn renderer(colors: &str, width: u32, height: u32) -> Renderer {
    let args = Args {
        input: "icons".to_string(),
        output: "output".to_string(),
        colors: colors.to_string(),
        width,
        height,
    };
    Renderer::new(&args, Database::new())
}

fn outputs(jobs: &[RenderJob]) -> Vec<(String, String)> {
    jobs.iter().map(|j| (j.output.clone(), j.color.clone())).collect()
}

#[test]
fn two_bare_colors_give_two_images() {
    let r = renderer("ff0000,00ff00", 1024, 1024);
    let jobs = r.render("icon.svg").ok().unwrap();
    assert_eq!(
        outputs(&jobs),
        vec![
            ("output/ff0000/icon.png".to_string(), "ff0000".to_string()),
            ("output/00ff00/icon.png".to_string(), "00ff00".to_string()),
        ]
    );
    let mut r = r;
    for j in &jobs {
        let png = r.render_one(ICON, &j.color, None).ok().unwrap();
        assert!(!png.is_empty());
        r.record(JobOutcome::Written);
    }
    assert_eq!(r.count, 2);
}

#[test]
fn one_named_color_gives_one_image() {
    let r = renderer("primary:112233", 1024, 1024);
    let jobs = r.render("icon.svg").ok().unwrap();
    assert_eq!(
        outputs(&jobs),
        vec![("output/primary/icon.png".to_string(), "112233".to_string())]
    );
    assert_eq!(r.output_dirs(), vec!["output/primary".to_string()]);
}

#[test]
fn other_formats_are_skipped_for_every_color() {
    let mut r = renderer("ff0000,00ff00", 64, 64);
    assert_eq!(r.render("icon.png").err(), Some(RenderError::UnsupportedFormat));
    assert_eq!(r.render("icon").err(), Some(RenderError::UnsupportedFormat));
    r.record(JobOutcome::Failed(RenderError::UnsupportedFormat));
    assert_eq!(r.count, 0);
}

#[test]
fn folders_are_not_walked() {
    let r = renderer("ff0000", 64, 64);
    assert!(r.render_entry(true, "nested.svg").is_none());
    assert_eq!(r.render_entry(false, "icon.svg").unwrap().ok().unwrap().len(), 1);
}

#[test]
fn existing_output_is_not_rendered_again() {
    let mut r = renderer("ff0000", 64, 64);
    assert!(should_render(false));
    r.record(JobOutcome::Written);
    assert_eq!(r.count, 1);
    assert!(!should_render(true));
    r.record(JobOutcome::Skipped);
    assert_eq!(r.count, 1);
    assert!(should_render(false));
    r.record(JobOutcome::Written);
    assert_eq!(r.count, 2);
}

#[test]
fn renders_a_png_of_the_substituted_color() {
    let r = renderer("ff0000", 4, 4);
    let png = r.render_one(ICON, "#ff0000", None).ok().unwrap();
    assert_eq!(&png[..8], &[0x89, b'P', b'N', b'G', 0x0d, 0x0a, 0x1a, 0x0a]);
    let other = r.render_one(ICON, "0000ff", None).ok().unwrap();
    assert_ne!(png, other);
}

#[test]
fn malformed_document_is_a_parse_error() {
    let r = renderer("ff0000", 4, 4);
    assert_eq!(r.render_one("<svg", "ff0000", None).err(), Some(RenderError::ParseError));
    assert_eq!(r.render_one("not a document", "ff0000", None).err(), Some(RenderError::ParseError));
}

#[test]
fn zero_size_is_a_raster_error() {
    let r = renderer("ff0000", 0, 4);
    assert_eq!(r.render_one(ICON, "ff0000", None).err(), Some(RenderError::RasterError));
}

#[test]
fn default_palette_makes_ten_folders() {
    let r = renderer("0d6efd,6c757d,198754,0dcaf0,ffc107,dc3545,f8f9fa,212529,ffffff,000000", 8, 8);
    let dirs = r.output_dirs();
    assert_eq!(dirs.len(), 10);
    assert_eq!(dirs[0], "output/0d6efd");
    assert_eq!(dirs[9], "output/000000");
}

#[test]
fn document_outcomes_are_counted_together() {
    let mut r = renderer("ff0000,00ff00", 8, 8);
    r.record_all(&vec![JobOutcome::Written, JobOutcome::Written]);
    assert_eq!(r.count, 2);
    r.record_all(&vec![JobOutcome::Skipped, JobOutcome::Skipped]);
    assert_eq!(r.count, 2);
    r.record_all(&vec![JobOutcome::Failed(RenderError::WriteError), JobOutcome::Written]);
    assert_eq!(r.count, 3);
}

#[test]
fn too_wide_is_a_raster_error() {
    let r = renderer("ff0000", 536870912, 1);
    assert_eq!(r.render_one(ICON, "ff0000", None).err(), Some(RenderError::RasterError));
}

#[test]
fn parse_error_comes_before_size() {
    let r = renderer("ff0000", 0, 0);
    assert_eq!(r.render_one("<svg", "ff0000", None).err(), Some(RenderError::ParseError));
}

#[test]
fn entry_jobs_are_those_of_render() {
    let r = renderer("a:111111,b:222222", 8, 8);
    let jobs = r.render_entry(false, "x.svg").unwrap().ok().unwrap();
    assert_eq!(
        outputs(&jobs),
        vec![
            ("output/a/x.png".to_string(), "111111".to_string()),
            ("output/b/x.png".to_string(), "222222".to_string()),
        ]
    );
}
