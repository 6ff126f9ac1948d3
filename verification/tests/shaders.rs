use tetris::channels::{decimal_string, Channels};

fn sample() -> Channels {
    Channels::from(&vec![(String::from("height"), 1usize), (String::from("color"), 3usize)])
}

#[test]
fn decimal_numbers() {
    assert_eq!(decimal_string(0), "0");
    assert_eq!(decimal_string(7), "7");
    assert_eq!(decimal_string(10), "10");
    assert_eq!(decimal_string(1905), "1905");
}

#[test]
fn no_channels_no_code() {
    let c = Channels::new();
    assert!(c.glsl_base_declarations().is_empty());
    assert_eq!(c.glsl_output_declarations(0), "");
    assert_eq!(c.glsl_texture_declarations(), "");
    assert_eq!(c.glsl_assignments("uv"), "");
    assert!(c.iter().is_empty());
}

#[test]
fn base_declarations_name_type_and_channel() {
    assert_eq!(sample().glsl_base_declarations(), vec!["float height".to_string(), "vec3 color".to_string()]);
}

#[test]
fn output_declarations_count_units_from_the_first() {
    assert_eq!(
        sample().glsl_output_declarations(2),
        "layout(location = 2) out float height;\nlayout(location = 3) out vec3 color;\n"
    );
}

#[test]
fn texture_declarations_one_sampler_per_channel() {
    assert_eq!(
        sample().glsl_texture_declarations(),
        "uniform sampler2D _channel_texture_height;\nuniform sampler2D _channel_texture_color;\n"
    );
}

#[test]
fn assignments_read_the_needed_components() {
    assert_eq!(
        sample().glsl_assignments("tc"),
        "height = texture(_channel_texture_height, tc).r;\ncolor = texture(_channel_texture_color, tc).rgb;\n"
    );
    let four = Channels::from(&vec![(String::from("a"), 2usize), (String::from("b"), 4usize)]);
    assert_eq!(
        four.glsl_assignments("p"),
        "a = texture(_channel_texture_a, p).rg;\nb = texture(_channel_texture_b, p).rgba;\n"
    );
}

#[test]
fn clone_keeps_the_channels() {
    let c = sample().clone();
    assert_eq!(c.iter().len(), 2);
    assert_eq!(c.iter()[1].0, "color");
    assert_eq!(c.iter()[1].1, 3);
}
