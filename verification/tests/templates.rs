use jackdaw::templates::{sanitize_filename, template_path, template_roots};

#[test]
fn file_names_keep_letters_digits_and_a_few_marks() {
    assert_eq!(sanitize_filename("Wall Torch-2_b"), "Wall Torch-2_b");
    assert_eq!(sanitize_filename("a/b:c"), "a_b_c");
    assert_eq!(sanitize_filename("  padded  "), "padded");
    assert_eq!(sanitize_filename("Élan"), "Élan");
}

#[test]
fn a_template_is_saved_under_the_templates_folder() {
    assert_eq!(template_path("Wall Torch"), "assets/templates/Wall Torch.template.json");
    assert_eq!(template_path(" ../x "), "assets/templates/___x.template.json");
}

#[test]
fn the_roots_are_those_without_a_parent_inside() {
    let entities = vec![(10, None), (11, Some(10)), (12, Some(99)), (13, Some(11))];
    assert_eq!(template_roots(&entities), vec![10, 12]);
    assert_eq!(template_roots(&vec![]), Vec::<u64>::new());
}
