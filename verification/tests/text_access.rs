use docx::document::{BookmarkStart, Break, Hyperlink, Paragraph, Run, Tab};
use docx::entity::to_string;

fn sample() -> Paragraph {
    let link = Hyperlink::default().content(Run::default().push_text("b").push_text("c"));
    Paragraph::default()
        .push_text("a")
        .push(BookmarkStart::default())
        .push(link)
        .push(Run::default().push(Tab {}).push_text("d").push(Break::default()))
}

fn texts(p: &Paragraph) -> Vec<String> {
    p.iter_text().into_iter().map(|t| t.clone()).collect()
}

#[test]
fn text_mut_by_index_changes_that_text_only() {
    let mut p = sample();
    let before = to_string(&p).unwrap();
    for (i, expected) in ["a", "b", "c", "d"].iter().enumerate() {
        assert_eq!(p.iter_text_mut(i).map(|t| t.clone()), Some(expected.to_string()));
    }
    assert_eq!(to_string(&p).unwrap(), before);
    p.iter_text_mut(2).unwrap().push_str("!");
    assert_eq!(texts(&p), vec!["a", "b", "c!", "d"]);
    *p.iter_text_mut(0).unwrap() = String::from("A");
    assert_eq!(texts(&p), vec!["A", "b", "c!", "d"]);
    *p.iter_text_mut(3).unwrap() = String::new();
    assert_eq!(texts(&p), vec!["A", "b", "c!", ""]);
    assert_eq!(p.content.len(), 4);
    assert_eq!(
        to_string(&p).unwrap(),
        "<w:p><w:pPr/><w:r><w:rPr/><w:t>A</w:t></w:r><w:bookmarkStart/><w:hyperlink><w:r><w:rPr/><w:t>b</w:t><w:t>c!</w:t></w:r></w:hyperlink><w:r><w:rPr/><w:tab/><w:t></w:t><w:br/></w:r></w:p>"
    );
}

#[test]
fn text_mut_beyond_the_texts_is_none() {
    let mut p = sample();
    let before = to_string(&p).unwrap();
    assert!(p.iter_text_mut(4).is_none());
    assert!(p.iter_text_mut(usize::MAX).is_none());
    assert_eq!(to_string(&p).unwrap(), before);
    assert!(Paragraph::default().iter_text_mut(0).is_none());
}

#[test]
fn run_text_mut_and_count() {
    let mut run = Run::default().push(Tab {}).push_text("x").push(Tab {}).push_text("y");
    assert_eq!(run.text_count(), 2);
    assert_eq!(Run::default().text_count(), 0);
    run.iter_text_mut(1).unwrap().insert(0, '>');
    let got: Vec<&str> = run.iter_text().into_iter().map(|t| t.as_str()).collect();
    assert_eq!(got, vec!["x", ">y"]);
    assert!(run.iter_text_mut(2).is_none());
    assert_eq!(run.content.len(), 4);
}
