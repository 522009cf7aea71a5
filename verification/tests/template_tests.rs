use dashboard_core::template::SaveTemplateInput;
use dashboard_core::template::build_custom_template;
use dashboard_core::template::generate_template_id;
use dashboard_core::template::get_templates_dir;
use dashboard_core::template::template_file_name;

#[test]
fn test_generate_template_id() {
    assert_eq!(generate_template_id("My Custom Agent"), "my-custom-agent");
    assert_eq!(generate_template_id("Test  Template!!"), "test-template");
    assert_eq!(generate_template_id("simple"), "simple");
    assert_eq!(generate_template_id("Already-Valid_Name"), "already-valid_name");
}

#[test]
fn template_ids_drop_leading_and_trailing_hyphens() {
    assert_eq!(generate_template_id("  bordered  "), "bordered");
    assert_eq!(generate_template_id("!!!"), "");
    assert_eq!(generate_template_id(""), "");
    assert_eq!(generate_template_id("a--b"), "a-b");
}

fn sample_input() -> SaveTemplateInput {
    SaveTemplateInput {
        name: "My Agent".to_string(),
        description: "does things".to_string(),
        category: "agent".to_string(),
        icon: "robot".to_string(),
        content: "body".to_string(),
        fields: vec![],
        default_file_name: "agent.md".to_string(),
    }
}

#[test]
fn fresh_templates_carry_the_current_time_as_creation() {
    let t = build_custom_template(
        sample_input(),
        "my-agent".to_string(),
        "2024-05-01T00:00:00.000+0000".to_string(),
        None,
    );
    assert_eq!(t.id, "my-agent");
    assert_eq!(t.name, "My Agent");
    assert!(t.is_custom);
    assert_eq!(t.created_at, "2024-05-01T00:00:00.000+0000");
    assert!(t.updated_at.is_none());
}

#[test]
fn resaved_templates_keep_their_creation_time() {
    let t = build_custom_template(
        sample_input(),
        "my-agent".to_string(),
        "2024-06-01T00:00:00.000+0000".to_string(),
        Some("2024-05-01T00:00:00.000+0000".to_string()),
    );
    assert_eq!(t.created_at, "2024-05-01T00:00:00.000+0000");
    assert_eq!(t.updated_at, Some("2024-06-01T00:00:00.000+0000".to_string()));
}

#[test]
fn template_files_live_under_the_templates_directory() {
    assert_eq!(get_templates_dir("/home/u/.dashboard"), "/home/u/.dashboard/templates");
    assert_eq!(template_file_name("my-agent"), "my-agent.json");
}
