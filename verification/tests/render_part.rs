use tinker_pdf::render_part::{
    escaped, form_invocation, render_annotation, render_form, NotDrawn, RenderPartError,
};

#[test]
fn a_name_is_escaped_so_the_interpreter_reads_it_back() {
    assert_eq!(escaped(b"Fm0"), b"Fm0");
    assert_eq!(escaped(b"a b"), b"a#20b");
    assert_eq!(escaped(b"x#y/z"), b"x#23y#2Fz");
    assert_eq!(escaped(&[0x00, 0xFF]), b"#00#FF");
}

#[test]
fn every_delimiter_is_escaped_and_nothing_regular_is() {
    assert_eq!(escaped(b"()<>[]{}%"), b"#28#29#3C#3E#5B#5D#7B#7D#25");
    assert_eq!(escaped(b"A~!z"), b"A~!z");
    assert_eq!(escaped(b""), b"");
}

#[test]
fn a_form_is_invoked_by_its_escaped_name() {
    assert_eq!(form_invocation(b"Fm 0"), b"/Fm#200 Do");
    assert_eq!(
        render_form(b"Fm0", Some(Some(b"Form".to_vec())), true),
        Ok(b"/Fm0 Do".to_vec())
    );
}

#[test]
fn a_part_that_cannot_be_drawn_is_named() {
    assert_eq!(
        render_form(b"Im0", None, true),
        Err(RenderPartError::NoSuchXObject {
            name: "Im0".to_string()
        })
    );
    let image = render_form(b"Im0", Some(Some(b"Image".to_vec())), true).unwrap_err();
    assert_eq!(
        image,
        RenderPartError::NotAForm {
            name: "Im0".to_string(),
            subtype: Some("Image".to_string())
        }
    );
    assert_eq!(image.message(), "/Im0 is a /Image XObject, not a form");
    let bare = render_form(b"X", Some(None), true).unwrap_err();
    assert_eq!(bare.message(), "/X has no /Subtype, so it is not a form");
    assert_eq!(
        render_form(b"Fm0", Some(Some(b"Form".to_vec())), false),
        Err(RenderPartError::UnreadableForm {
            name: "Fm0".to_string()
        })
    );
}

#[test]
fn an_annotation_past_the_list_and_one_that_draws_nothing_differ() {
    let past = render_annotation(3, 3, Ok(())).unwrap_err();
    assert_eq!(past, RenderPartError::NoSuchAnnotation { index: 3, count: 3 });
    assert_eq!(past.message(), "no annotation at index 3: the page has 3");
    let hidden = render_annotation(12, 40, Err(NotDrawn::Hidden)).unwrap_err();
    assert_eq!(
        hidden.message(),
        "annotation 12 draws nothing: its flags hide it"
    );
    assert_eq!(render_annotation(0, 1, Ok(())), Ok(()));
    assert_eq!(NotDrawn::Degenerate.message(), "its appearance box collapses to nothing");
}

#[test]
fn only_a_name_of_regular_bytes_comes_through_unchanged() {
    assert_eq!(escaped(b"Im0.x_9"), b"Im0.x_9");
    assert_ne!(escaped(b"Im#0"), b"Im#0");
    assert_ne!(escaped(b"a(b"), b"a(b");
    assert_ne!(escaped(&[0x7F]), vec![0x7F]);
}
