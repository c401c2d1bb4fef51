//! The project-root decision: whether one directory listing marks a
//! project root.
//!
//! A directory is taken for a project root when it holds a known
//! marker — a version-control directory, a build manifest of a common
//! ecosystem, a conventional project directory — or, as a fallback
//! heuristic, when it has any subdirectory at all. The marker check
//! comes first; the subdirectory fallback is a heuristic, not a
//! guarantee. The upward walk that applies this decision to ancestor
//! directories belongs to the caller.

use vstd::prelude::*;
use vstd::string::*;
use crate::glob::{glob_match, glob_matches, has_wildcard, spec_has_wildcard};
use crate::text::str_eq;
use crate::walker::{ChildV, DirChild};

verus! {

/// The known project-root markers: a trailing separator asks for a
/// directory of that name, a wildcard is glob-matched against names,
/// anything else must equal a name exactly.
pub open spec fn root_indicators() -> Seq<Seq<char>> {
    seq![
        "src/"@, "app/"@, "lib/"@, "test/"@, "tests/"@, "docs/"@, "scripts/"@,
        "packages/"@, "internal/"@, "cmd/"@, "bin/"@, "include/"@,
        ".git"@, ".hg"@, ".svn"@, ".bzr"@,
        "package.json"@, "package-lock.json"@, "yarn.lock"@, "pnpm-lock.yaml"@,
        "tsconfig.json"@, "next.config.js"@, "nuxt.config.js"@, "angular.json"@,
        "Cargo.toml"@, "Cargo.lock"@,
        "requirements.txt"@, "setup.py"@, "pyproject.toml"@, "Pipfile"@, "poetry.lock"@,
        "Gemfile"@, "Gemfile.lock"@, ".ruby-version"@, "config.ru"@, "Rakefile"@,
        "composer.json"@, "composer.lock"@, "artisan"@, ".env.example"@,
        "pom.xml"@, "build.gradle"@, "settings.gradle"@, "gradlew"@, "build.sbt"@,
        "mvnw"@, ".mvn"@, ".gradle"@,
        "go.mod"@, "go.sum"@, "Gopkg.toml"@, "Gopkg.lock"@,
        "CMakeLists.txt"@, "Makefile"@, "configure"@, "meson.build"@,
        "conanfile.txt"@, "vcpkg.json"@, "compile_commands.json"@,
        "*.sln"@, "*.csproj"@, "*.fsproj"@, "*.vbproj"@, "packages.config"@,
        "Package.swift"@, "*.xcodeproj"@, "*.xcworkspace"@, "Podfile"@,
        "mix.exs"@, "rebar.config"@, "erlang.mk"@,
        "Dockerfile"@, "docker-compose.yml"@, "docker-compose.yaml"@,
        "index.html"@, "webpack.config.js"@, "vite.config.js"@, "rollup.config.js"@,
        "README.md"@, "LICENSE"@, ".editorconfig"@, ".gitlab-ci.yml"@, ".travis.yml"@,
        "netlify.toml"@, "vercel.json"@, ".env"@, "Procfile"@,
        ".vscode"@, ".idea"@, ".eclipse"@, ".project"@,
    ]
}

/// Whether one marker is present in a listing.
pub open spec fn indicator_present(ind: Seq<char>, kids: Seq<ChildV>) -> bool {
    if ind.len() > 0 && ind.last() == '/' {
        exists|j: int| 0 <= j < kids.len() && kids[j].name == ind.drop_last() && kids[j].is_dir
    } else if spec_has_wildcard(ind) {
        exists|j: int| 0 <= j < kids.len() && glob_matches(ind, kids[j].name)
    } else {
        exists|j: int| 0 <= j < kids.len() && kids[j].name == ind
    }
}

/// Whether a listing marks a project root: some marker is present, or —
/// the fallback — some child is a directory.
pub open spec fn is_root_listing(kids: Seq<ChildV>) -> bool {
    (exists|i: int| 0 <= i < root_indicators().len() && indicator_present(
        #[trigger] root_indicators()[i],
        kids,
    )) || exists|j: int| 0 <= j < kids.len() && (#[trigger] kids[j]).is_dir
}

/// Whether one marker pattern is present in a listing.
fn indicator_found(ind: &str, children: &Vec<DirChild>) -> (r: bool)
    ensures
        r == indicator_present(ind@, children.deep_view()),
{
    let ghost kids = children.deep_view();
    let ilen = ind.unicode_len();
    let n = children.len();
    let dir_marker = ilen > 0 && ind.get_char(ilen - 1) == '/';
    let wild = has_wildcard(ind);
    let mut j: usize = 0;
    while j < n
        invariant
            j <= n,
            n == children@.len(),
            kids == children.deep_view(),
            ilen == ind@.len(),
            dir_marker == (ind@.len() > 0 && ind@.last() == '/'),
            wild == spec_has_wildcard(ind@),
            dir_marker ==> forall|k: int|
                0 <= k < j ==> !(kids[k].name == ind@.drop_last() && kids[k].is_dir),
            !dir_marker && wild ==> forall|k: int| 0 <= k < j ==> !glob_matches(ind@, kids[k].name),
            !dir_marker && !wild ==> forall|k: int| 0 <= k < j ==> !(kids[k].name == ind@),
        decreases n - j,
    {
        let child = &children[j];
        proof {
            assert(kids[j as int] == children@[j as int].deep_view());
        }
        if dir_marker {
            let stem = ind.substring_char(0, ilen - 1);
            proof {
                assert(stem@ =~= ind@.drop_last());
            }
            if child.is_dir && str_eq(child.name.as_str(), stem) {
                return true;
            }
        } else if wild {
            if glob_match(ind, child.name.as_str()) {
                return true;
            }
        } else {
            if str_eq(child.name.as_str(), ind) {
                return true;
            }
        }
        j += 1;
    }
    proof {
        if indicator_present(ind@, kids) {
            if ind@.len() > 0 && ind@.last() == '/' {
                let w = choose|w: int|
                    0 <= w < kids.len() && kids[w].name == ind@.drop_last() && kids[w].is_dir;
            } else if spec_has_wildcard(ind@) {
                let w = choose|w: int| 0 <= w < kids.len() && glob_matches(ind@, kids[w].name);
            } else {
                let w = choose|w: int| 0 <= w < kids.len() && kids[w].name == ind@;
            }
        }
    }
    false
}

/// Decides whether a directory, seen through its listing, is a project
/// root: the markers are consulted first, the subdirectory fallback
/// second.
pub fn directory_is_root(children: &Vec<DirChild>) -> (r: bool)
    ensures
        r == is_root_listing(children.deep_view()),
{
    let ghost kids = children.deep_view();
    let indicators = root_indicator_patterns();
    let m = indicators.len();
    let mut i: usize = 0;
    while i < m
        invariant
            i <= m,
            m == root_indicators().len(),
            indicators.deep_view() == root_indicators(),
            kids == children.deep_view(),
            forall|k: int| 0 <= k < i ==> !indicator_present(#[trigger] root_indicators()[k], kids),
        decreases m - i,
    {
        let ind: &String = &indicators[i];
        proof {
            assert(indicators.deep_view()[i as int] == ind@);
        }
        if indicator_found(ind.as_str(), children) {
            return true;
        }
        i += 1;
    }
    let n = children.len();
    let mut j: usize = 0;
    while j < n
        invariant
            j <= n,
            n == children@.len(),
            kids == children.deep_view(),
            forall|k: int| 0 <= k < j ==> !(#[trigger] kids[k]).is_dir,
        decreases n - j,
    {
        let child = &children[j];
        proof {
            assert(kids[j as int] == children@[j as int].deep_view());
        }
        if child.is_dir {
            return true;
        }
        j += 1;
    }
    proof {
        if is_root_listing(kids) {
            if exists|w: int| 0 <= w < root_indicators().len() && indicator_present(
                #[trigger] root_indicators()[w],
                kids,
            ) {
                let w = choose|w: int|
                    0 <= w < root_indicators().len() && indicator_present(
                        root_indicators()[w],
                        kids,
                    );
            } else {
                let w = choose|w: int| 0 <= w < kids.len() && (#[trigger] kids[w]).is_dir;
            }
        }
    }
    false
}

/// Builds the marker table as owned strings.
fn root_indicator_patterns() -> (r: Vec<String>)
    ensures
        r.deep_view() == root_indicators(),
{
    let mut v: Vec<String> = Vec::new();
    v.push(crate::text::str_to_string("src/"));
    v.push(crate::text::str_to_string("app/"));
    v.push(crate::text::str_to_string("lib/"));
    v.push(crate::text::str_to_string("test/"));
    v.push(crate::text::str_to_string("tests/"));
    v.push(crate::text::str_to_string("docs/"));
    v.push(crate::text::str_to_string("scripts/"));
    v.push(crate::text::str_to_string("packages/"));
    v.push(crate::text::str_to_string("internal/"));
    v.push(crate::text::str_to_string("cmd/"));
    v.push(crate::text::str_to_string("bin/"));
    v.push(crate::text::str_to_string("include/"));
    v.push(crate::text::str_to_string(".git"));
    v.push(crate::text::str_to_string(".hg"));
    v.push(crate::text::str_to_string(".svn"));
    v.push(crate::text::str_to_string(".bzr"));
    v.push(crate::text::str_to_string("package.json"));
    v.push(crate::text::str_to_string("package-lock.json"));
    v.push(crate::text::str_to_string("yarn.lock"));
    v.push(crate::text::str_to_string("pnpm-lock.yaml"));
    v.push(crate::text::str_to_string("tsconfig.json"));
    v.push(crate::text::str_to_string("next.config.js"));
    v.push(crate::text::str_to_string("nuxt.config.js"));
    v.push(crate::text::str_to_string("angular.json"));
    v.push(crate::text::str_to_string("Cargo.toml"));
    v.push(crate::text::str_to_string("Cargo.lock"));
    v.push(crate::text::str_to_string("requirements.txt"));
    v.push(crate::text::str_to_string("setup.py"));
    v.push(crate::text::str_to_string("pyproject.toml"));
    v.push(crate::text::str_to_string("Pipfile"));
    v.push(crate::text::str_to_string("poetry.lock"));
    v.push(crate::text::str_to_string("Gemfile"));
    v.push(crate::text::str_to_string("Gemfile.lock"));
    v.push(crate::text::str_to_string(".ruby-version"));
    v.push(crate::text::str_to_string("config.ru"));
    v.push(crate::text::str_to_string("Rakefile"));
    v.push(crate::text::str_to_string("composer.json"));
    v.push(crate::text::str_to_string("composer.lock"));
    v.push(crate::text::str_to_string("artisan"));
    v.push(crate::text::str_to_string(".env.example"));
    v.push(crate::text::str_to_string("pom.xml"));
    v.push(crate::text::str_to_string("build.gradle"));
    v.push(crate::text::str_to_string("settings.gradle"));
    v.push(crate::text::str_to_string("gradlew"));
    v.push(crate::text::str_to_string("build.sbt"));
    v.push(crate::text::str_to_string("mvnw"));
    v.push(crate::text::str_to_string(".mvn"));
    v.push(crate::text::str_to_string(".gradle"));
    v.push(crate::text::str_to_string("go.mod"));
    v.push(crate::text::str_to_string("go.sum"));
    v.push(crate::text::str_to_string("Gopkg.toml"));
    v.push(crate::text::str_to_string("Gopkg.lock"));
    v.push(crate::text::str_to_string("CMakeLists.txt"));
    v.push(crate::text::str_to_string("Makefile"));
    v.push(crate::text::str_to_string("configure"));
    v.push(crate::text::str_to_string("meson.build"));
    v.push(crate::text::str_to_string("conanfile.txt"));
    v.push(crate::text::str_to_string("vcpkg.json"));
    v.push(crate::text::str_to_string("compile_commands.json"));
    v.push(crate::text::str_to_string("*.sln"));
    v.push(crate::text::str_to_string("*.csproj"));
    v.push(crate::text::str_to_string("*.fsproj"));
    v.push(crate::text::str_to_string("*.vbproj"));
    v.push(crate::text::str_to_string("packages.config"));
    v.push(crate::text::str_to_string("Package.swift"));
    v.push(crate::text::str_to_string("*.xcodeproj"));
    v.push(crate::text::str_to_string("*.xcworkspace"));
    v.push(crate::text::str_to_string("Podfile"));
    v.push(crate::text::str_to_string("mix.exs"));
    v.push(crate::text::str_to_string("rebar.config"));
    v.push(crate::text::str_to_string("erlang.mk"));
    v.push(crate::text::str_to_string("Dockerfile"));
    v.push(crate::text::str_to_string("docker-compose.yml"));
    v.push(crate::text::str_to_string("docker-compose.yaml"));
    v.push(crate::text::str_to_string("index.html"));
    v.push(crate::text::str_to_string("webpack.config.js"));
    v.push(crate::text::str_to_string("vite.config.js"));
    v.push(crate::text::str_to_string("rollup.config.js"));
    v.push(crate::text::str_to_string("README.md"));
    v.push(crate::text::str_to_string("LICENSE"));
    v.push(crate::text::str_to_string(".editorconfig"));
    v.push(crate::text::str_to_string(".gitlab-ci.yml"));
    v.push(crate::text::str_to_string(".travis.yml"));
    v.push(crate::text::str_to_string("netlify.toml"));
    v.push(crate::text::str_to_string("vercel.json"));
    v.push(crate::text::str_to_string(".env"));
    v.push(crate::text::str_to_string("Procfile"));
    v.push(crate::text::str_to_string(".vscode"));
    v.push(crate::text::str_to_string(".idea"));
    v.push(crate::text::str_to_string(".eclipse"));
    v.push(crate::text::str_to_string(".project"));
    proof {
        assert(v.deep_view() =~~= root_indicators());
    }
    v
}

} // verus!
