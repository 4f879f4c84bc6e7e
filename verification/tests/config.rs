use sweepy::config::{
    build_default_config, create_config_language_entry, invalid_dir_name_message,
    template_from_input, validate_and_format_dirs_input, CLI_CONFIG_NAME, CLI_DIR_NAME,
};
use sweepy::constants::{project_root_markers, ProjectTemplate};

fn template(name: &str, mark: &str, dirs: &[&str]) -> ProjectTemplate {
    ProjectTemplate {
        name: name.to_string(),
        mark: mark.to_string(),
        dirs_to_clear: dirs.iter().map(|d| d.to_string()).collect(),
    }
}

#[test]
fn writes_one_language_entry() {
    let t = template("Rust", "Cargo.toml", &["target"]);
    assert_eq!(
        create_config_language_entry(&t),
        "[[language]]\nname = \"Rust\"\nmark = \"Cargo.toml\"\ndirs_to_clear = [\"target\"]\n\n"
    );
    let t = template("Zig", "build.zig", &[".zig-cache", "zig-out"]);
    assert_eq!(
        create_config_language_entry(&t),
        "[[language]]\nname = \"Zig\"\nmark = \"build.zig\"\ndirs_to_clear = [\".zig-cache\", \"zig-out\"]\n\n"
    );
    let t = template("None", "x", &[]);
    assert_eq!(
        create_config_language_entry(&t),
        "[[language]]\nname = \"None\"\nmark = \"x\"\ndirs_to_clear = []\n\n"
    );
}

#[test]
fn default_config_lists_the_built_in_languages_in_order() {
    let config = build_default_config();
    let mut expected = String::from("# Sweepy configuration file.\n\n");
    for t in project_root_markers() {
        expected.push_str(&create_config_language_entry(&t));
    }
    assert_eq!(config, expected);
    assert!(config.starts_with("# Sweepy configuration file.\n\n[[language]]\nname = \"Rust\""));
    assert_eq!(config.matches("[[language]]").count(), 8);
    assert!(config.contains("name = \"Node.js\"\nmark = \"package.json\"\ndirs_to_clear = [\"node_modules\", \"dist\", \"build\", \".next\", \".nuxt\", \".cache\", \".vite\", \"coverage\", \"out\"]"));
}

#[test]
fn default_config_reads_back_as_the_built_in_languages() {
    let table: toml::Table = toml::from_str(&build_default_config()).unwrap();
    let langs = table["language"].as_array().unwrap();
    let markers = project_root_markers();
    assert_eq!(langs.len(), markers.len());
    for (l, m) in langs.iter().zip(markers.iter()) {
        assert_eq!(l["name"].as_str().unwrap(), m.name);
        assert_eq!(l["mark"].as_str().unwrap(), m.mark);
        let dirs: Vec<&str> = l["dirs_to_clear"]
            .as_array()
            .unwrap()
            .iter()
            .map(|d| d.as_str().unwrap())
            .collect();
        assert_eq!(dirs, m.dirs_to_clear);
    }
}

#[test]
fn built_in_languages_match_the_readme() {
    let m = project_root_markers();
    let names: Vec<&str> = m.iter().map(|t| t.name.as_str()).collect();
    assert_eq!(names, ["Rust", "Node.js", "PHP", "Elixir", "Zig", "Maven", "Gradle", "Swift"]);
    let marks: Vec<&str> = m.iter().map(|t| t.mark.as_str()).collect();
    assert_eq!(marks, ["Cargo.toml", "package.json", "composer.json", "mix.exs", "build.zig", "pom.xml", "build.gradle", "Package.swift"]);
    assert_eq!(m[3].dirs_to_clear, ["_build", "deps"]);
    assert_eq!(m[6].dirs_to_clear, ["build", ".gradle"]);
    assert_eq!(m[7].dirs_to_clear, [".build"]);
}

#[test]
fn splits_trims_and_filters_directory_input() {
    let (ok, bad) = validate_and_format_dirs_input(&" target , ,a/b, dist,.cache".to_string());
    assert_eq!(ok, ["target", "dist", ".cache"]);
    assert_eq!(bad, ["", "a/b"]);
    let (ok, bad) = validate_and_format_dirs_input(&String::new());
    assert!(ok.is_empty());
    assert_eq!(bad, [""]);
    let (ok, bad) = validate_and_format_dirs_input(&"node_modules".to_string());
    assert_eq!(ok, ["node_modules"]);
    assert!(bad.is_empty());
}

#[test]
fn builds_a_template_from_user_input() {
    let (t, bad) = template_from_input("Go".to_string(), "go.mod".to_string(), &"bin, vendor ,x y".to_string());
    assert_eq!(t.name, "Go");
    assert_eq!(t.mark, "go.mod");
    assert_eq!(t.dirs_to_clear, ["bin", "vendor"]);
    assert_eq!(bad, ["x y"]);
    assert_eq!(
        create_config_language_entry(&t),
        "[[language]]\nname = \"Go\"\nmark = \"go.mod\"\ndirs_to_clear = [\"bin\", \"vendor\"]\n\n"
    );
}

#[test]
fn describes_a_refused_directory_name() {
    assert_eq!(
        invalid_dir_name_message("a/b"),
        "Invalid directory name: a/b. Allowed symbols: a-z A-Z 0-9 . _ -"
    );
}

#[test]
fn config_file_location_names() {
    assert_eq!(CLI_DIR_NAME, "sweepy");
    assert_eq!(CLI_CONFIG_NAME, "config.toml");
}

#[test]
fn accepted_names_read_back_unchanged() {
    for input in [" target , ,a/b, dist,.cache", "node_modules", "", " , x y ", "a,b,c"] {
        let (ok, _) = validate_and_format_dirs_input(&input.to_string());
        let (again, refused) = validate_and_format_dirs_input(&ok.join(","));
        assert_eq!(again, ok, "{input:?}");
        if !ok.is_empty() {
            assert!(refused.is_empty());
        }
        for x in &ok {
            assert_eq!(x, x.trim());
        }
    }
}
