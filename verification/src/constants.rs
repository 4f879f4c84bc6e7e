use vstd::prelude::*;

verus! {

/// The language entries read from the configuration file.
pub struct SweepyConfig {
    pub language: Vec<ProjectTemplate>,
}

/// A kind of project: its display name, the file that marks a project root,
/// and the generated directories that may be cleared in such a project.
pub struct ProjectTemplate {
    pub mark: String,
    pub name: String,
    pub dirs_to_clear: Vec<String>,
}

/// A project found on disk: its kind and the path of its root, as the bytes
/// of a Unix path.
pub struct ProjectInfo {
    pub template: ProjectTemplate,
    pub path: Vec<u8>,
}

/// A `ProjectTemplate` with its strings taken as character sequences.
pub struct TemplateView {
    pub name: Seq<char>,
    pub mark: Seq<char>,
    pub dirs_to_clear: Seq<Seq<char>>,
}

/// A `ProjectInfo` with its strings taken as character sequences.
pub struct ProjectView {
    pub template: TemplateView,
    pub path: Seq<u8>,
}

impl View for ProjectTemplate {
    type V = TemplateView;

    open spec fn view(&self) -> TemplateView {
        TemplateView {
            name: self.name@,
            mark: self.mark@,
            dirs_to_clear: self.dirs_to_clear.deep_view(),
        }
    }
}

impl View for ProjectInfo {
    type V = ProjectView;

    open spec fn view(&self) -> ProjectView {
        ProjectView { template: self.template@, path: self.path@ }
    }
}

/// The views of a sequence of templates.
pub open spec fn templates_view(ts: Seq<ProjectTemplate>) -> Seq<TemplateView> {
    ts.map_values(|t: ProjectTemplate| t@)
}

/// The views of a sequence of projects.
pub open spec fn projects_view(ps: Seq<ProjectInfo>) -> Seq<ProjectView> {
    ps.map_values(|p: ProjectInfo| p@)
}

pub open spec fn template_of(name: Seq<char>, mark: Seq<char>, dirs: Seq<Seq<char>>) -> TemplateView {
    TemplateView { name, mark, dirs_to_clear: dirs }
}

/// The languages known out of the box, in the order in which they are tried.
pub open spec fn default_templates() -> Seq<TemplateView> {
    seq![
        template_of("Rust"@, "Cargo.toml"@, seq!["target"@]),
        template_of(
            "Node.js"@,
            "package.json"@,
            seq![
                "node_modules"@,
                "dist"@,
                "build"@,
                ".next"@,
                ".nuxt"@,
                ".cache"@,
                ".vite"@,
                "coverage"@,
                "out"@,
            ],
        ),
        template_of("PHP"@, "composer.json"@, seq!["vendor"@]),
        template_of("Elixir"@, "mix.exs"@, seq!["_build"@, "deps"@]),
        template_of("Zig"@, "build.zig"@, seq![".zig-cache"@, "zig-out"@]),
        template_of("Maven"@, "pom.xml"@, seq!["target"@]),
        template_of("Gradle"@, "build.gradle"@, seq!["build"@, ".gradle"@]),
        template_of("Swift"@, "Package.swift"@, seq![".build"@]),
    ]
}

impl Clone for ProjectTemplate {
    fn clone(&self) -> (r: Self)
        ensures
            r@ == self@,
    {
        let dirs = self.dirs_to_clear.clone();
        assert(dirs.deep_view() =~= self.dirs_to_clear.deep_view());
        ProjectTemplate { mark: self.mark.clone(), name: self.name.clone(), dirs_to_clear: dirs }
    }
}

fn owned_names(items: &[&str]) -> (r: Vec<String>)
    ensures
        r.deep_view() == items@.map_values(|s: &str| s@),
{
    let mut r: Vec<String> = Vec::new();
    let mut i: usize = 0;
    while i < items.len()
        invariant
            i <= items@.len(),
            r.deep_view() == items@.take(i as int).map_values(|s: &str| s@),
        decreases items@.len() - i,
    {
        let ghost before = r.deep_view();
        r.push(items[i].to_owned());
        assert(r.deep_view() =~= before.push(items@[i as int]@));
        assert(items@.take(i + 1).map_values(|s: &str| s@) =~= items@.take(i as int).map_values(
            |s: &str| s@,
        ).push(items@[i as int]@));
        i = i + 1;
    }
    assert(items@.take(i as int) =~= items@);
    r
}

fn make_template(name: &str, mark: &str, dirs: &[&str]) -> (t: ProjectTemplate)
    ensures
        t@ == template_of(name@, mark@, dirs@.map_values(|s: &str| s@)),
{
    ProjectTemplate { mark: mark.to_owned(), name: name.to_owned(), dirs_to_clear: owned_names(dirs) }
}

/// The languages known out of the box.
pub fn project_root_markers() -> (markers: Vec<ProjectTemplate>)
    ensures
        templates_view(markers@) == default_templates(),
{
    let mut m: Vec<ProjectTemplate> = Vec::new();
    let t = make_template("Rust", "Cargo.toml", &["target"]);
    assert(t@.dirs_to_clear =~= seq!["target"@]);
    assert(t@ == default_templates()[0]);
    m.push(t);
    let t = make_template("Node.js", "package.json", &["node_modules", "dist", "build", ".next", ".nuxt", ".cache", ".vite", "coverage", "out"]);
    assert(t@.dirs_to_clear =~= seq!["node_modules"@, "dist"@, "build"@, ".next"@, ".nuxt"@, ".cache"@, ".vite"@, "coverage"@, "out"@]);
    assert(t@ == default_templates()[1]);
    m.push(t);
    let t = make_template("PHP", "composer.json", &["vendor"]);
    assert(t@.dirs_to_clear =~= seq!["vendor"@]);
    assert(t@ == default_templates()[2]);
    m.push(t);
    let t = make_template("Elixir", "mix.exs", &["_build", "deps"]);
    assert(t@.dirs_to_clear =~= seq!["_build"@, "deps"@]);
    assert(t@ == default_templates()[3]);
    m.push(t);
    let t = make_template("Zig", "build.zig", &[".zig-cache", "zig-out"]);
    assert(t@.dirs_to_clear =~= seq![".zig-cache"@, "zig-out"@]);
    assert(t@ == default_templates()[4]);
    m.push(t);
    let t = make_template("Maven", "pom.xml", &["target"]);
    assert(t@.dirs_to_clear =~= seq!["target"@]);
    assert(t@ == default_templates()[5]);
    m.push(t);
    let t = make_template("Gradle", "build.gradle", &["build", ".gradle"]);
    assert(t@.dirs_to_clear =~= seq!["build"@, ".gradle"@]);
    assert(t@ == default_templates()[6]);
    m.push(t);
    let t = make_template("Swift", "Package.swift", &[".build"]);
    assert(t@.dirs_to_clear =~= seq![".build"@]);
    assert(t@ == default_templates()[7]);
    m.push(t);
    assert(templates_view(m@) =~= default_templates());
    m
}

} // verus!
