use vstd::prelude::*;

use crate::order::{is_any, str_eq};
use crate::text::{lowercase, to_lowercase};
use crate::tree::DirNode;

verus! {

/// Kinds of directories that usually hold disposable or regenerable data.
#[derive(Clone, Copy, PartialEq, Eq, Structural, Debug)]
pub enum Category {
    BuildArtifact,
    PackageCache,
    VcsMetadata,
    BrowserCache,
    TempFiles,
    Logs,
}

/// The short name of a category.
pub open spec fn label_text(c: Category) -> Seq<char> {
    match c {
        Category::BuildArtifact => "Build artifacts"@,
        Category::PackageCache => "Package cache"@,
        Category::VcsMetadata => "VCS metadata"@,
        Category::BrowserCache => "Browser cache"@,
        Category::TempFiles => "Temporary files"@,
        Category::Logs => "Log files"@,
    }
}

/// The one-line advice for a category.
pub open spec fn description_text(c: Category) -> Seq<char> {
    match c {
        Category::BuildArtifact => "Compiled output, safe to delete and rebuild"@,
        Category::PackageCache => "Downloaded dependency cache, safe to delete and re-fetch"@,
        Category::VcsMetadata => "Version control history/metadata, do NOT delete casually"@,
        Category::BrowserCache => "Browser-cached assets, safe to clear"@,
        Category::TempFiles => "Temporary/scratch files"@,
        Category::Logs => "Log output, usually safe to delete"@,
    }
}

impl Category {
    /// The short name of the category.
    pub fn label(&self) -> (s: &'static str)
        ensures
            s@ == label_text(*self),
    {
        match self {
            Category::BuildArtifact => "Build artifacts",
            Category::PackageCache => "Package cache",
            Category::VcsMetadata => "VCS metadata",
            Category::BrowserCache => "Browser cache",
            Category::TempFiles => "Temporary files",
            Category::Logs => "Log files",
        }
    }

    /// The one-line advice for the category.
    pub fn description(&self) -> (s: &'static str)
        ensures
            s@ == description_text(*self),
    {
        match self {
            Category::BuildArtifact => "Compiled output, safe to delete and rebuild",
            Category::PackageCache => "Downloaded dependency cache, safe to delete and re-fetch",
            Category::VcsMetadata => "Version control history/metadata, do NOT delete casually",
            Category::BrowserCache => "Browser-cached assets, safe to clear",
            Category::TempFiles => "Temporary/scratch files",
            Category::Logs => "Log output, usually safe to delete",
        }
    }
}

/// The category of a directory whose lowercased name is `lower`, if its
/// name is one of the known ones.
pub open spec fn category_of(lower: Seq<char>) -> Option<Category> {
    if lower == "target"@ || lower == "build"@ || lower == "dist"@ || lower == "bin"@
        || lower == "obj"@ || lower == ".gradle"@ {
        Some(Category::BuildArtifact)
    } else if lower == "node_modules"@ || lower == ".cargo"@ || lower == ".m2"@
        || lower == "__pycache__"@ || lower == ".venv"@ || lower == "venv"@ || lower == ".npm"@ {
        Some(Category::PackageCache)
    } else if lower == ".git"@ {
        Some(Category::VcsMetadata)
    } else if lower == ".cache"@ || lower == "cachestorage"@ {
        Some(Category::BrowserCache)
    } else if lower == "tmp"@ || lower == "temp"@ {
        Some(Category::TempFiles)
    } else if lower == "logs"@ {
        Some(Category::Logs)
    } else {
        None
    }
}

/// The pattern table: each of these (lower-case) directory names is reported
/// under its category.
pub proof fn lemma_category_table()
    ensures
        category_of("target"@) == Some(Category::BuildArtifact),
        category_of("build"@) == Some(Category::BuildArtifact),
        category_of("dist"@) == Some(Category::BuildArtifact),
        category_of("bin"@) == Some(Category::BuildArtifact),
        category_of("obj"@) == Some(Category::BuildArtifact),
        category_of(".gradle"@) == Some(Category::BuildArtifact),
        category_of("node_modules"@) == Some(Category::PackageCache),
        category_of(".cargo"@) == Some(Category::PackageCache),
        category_of(".m2"@) == Some(Category::PackageCache),
        category_of("__pycache__"@) == Some(Category::PackageCache),
        category_of(".venv"@) == Some(Category::PackageCache),
        category_of("venv"@) == Some(Category::PackageCache),
        category_of(".npm"@) == Some(Category::PackageCache),
        category_of(".git"@) == Some(Category::VcsMetadata),
        category_of(".cache"@) == Some(Category::BrowserCache),
        category_of("cachestorage"@) == Some(Category::BrowserCache),
        category_of("tmp"@) == Some(Category::TempFiles),
        category_of("temp"@) == Some(Category::TempFiles),
        category_of("logs"@) == Some(Category::Logs),
{
    assert(category_of("target"@) == Some(Category::BuildArtifact)) by {
        reveal_strlit("target");
    }
    assert(category_of("build"@) == Some(Category::BuildArtifact)) by {
        reveal_strlit("build");
        reveal_strlit("target");
        assert("build"@.len() != "target"@.len());
        assert("build"@ != "target"@);
    }
    assert(category_of("dist"@) == Some(Category::BuildArtifact)) by {
        reveal_strlit("dist");
        reveal_strlit("target");
        reveal_strlit("build");
        assert("dist"@.len() != "target"@.len());
        assert("dist"@ != "target"@);
        assert("dist"@.len() != "build"@.len());
        assert("dist"@ != "build"@);
    }
    assert(category_of("bin"@) == Some(Category::BuildArtifact)) by {
        reveal_strlit("bin");
        reveal_strlit("target");
        reveal_strlit("build");
        reveal_strlit("dist");
        assert("bin"@.len() != "target"@.len());
        assert("bin"@ != "target"@);
        assert("bin"@.len() != "build"@.len());
        assert("bin"@ != "build"@);
        assert("bin"@.len() != "dist"@.len());
        assert("bin"@ != "dist"@);
    }
    assert(category_of("obj"@) == Some(Category::BuildArtifact)) by {
        reveal_strlit("obj");
        reveal_strlit("target");
        reveal_strlit("build");
        reveal_strlit("dist");
        reveal_strlit("bin");
        assert("obj"@.len() != "target"@.len());
        assert("obj"@ != "target"@);
        assert("obj"@.len() != "build"@.len());
        assert("obj"@ != "build"@);
        assert("obj"@.len() != "dist"@.len());
        assert("obj"@ != "dist"@);
        assert("obj"@[0] != "bin"@[0]);
        assert("obj"@ != "bin"@);
    }
    assert(category_of(".gradle"@) == Some(Category::BuildArtifact)) by {
        reveal_strlit(".gradle");
        reveal_strlit("target");
        reveal_strlit("build");
        reveal_strlit("dist");
        reveal_strlit("bin");
        reveal_strlit("obj");
        assert(".gradle"@.len() != "target"@.len());
        assert(".gradle"@ != "target"@);
        assert(".gradle"@.len() != "build"@.len());
        assert(".gradle"@ != "build"@);
        assert(".gradle"@.len() != "dist"@.len());
        assert(".gradle"@ != "dist"@);
        assert(".gradle"@.len() != "bin"@.len());
        assert(".gradle"@ != "bin"@);
        assert(".gradle"@.len() != "obj"@.len());
        assert(".gradle"@ != "obj"@);
    }
    assert(category_of("node_modules"@) == Some(Category::PackageCache)) by {
        reveal_strlit("node_modules");
        reveal_strlit("target");
        reveal_strlit("build");
        reveal_strlit("dist");
        reveal_strlit("bin");
        reveal_strlit("obj");
        reveal_strlit(".gradle");
        assert("node_modules"@.len() != "target"@.len());
        assert("node_modules"@ != "target"@);
        assert("node_modules"@.len() != "build"@.len());
        assert("node_modules"@ != "build"@);
        assert("node_modules"@.len() != "dist"@.len());
        assert("node_modules"@ != "dist"@);
        assert("node_modules"@.len() != "bin"@.len());
        assert("node_modules"@ != "bin"@);
        assert("node_modules"@.len() != "obj"@.len());
        assert("node_modules"@ != "obj"@);
        assert("node_modules"@.len() != ".gradle"@.len());
        assert("node_modules"@ != ".gradle"@);
    }
    assert(category_of(".cargo"@) == Some(Category::PackageCache)) by {
        reveal_strlit(".cargo");
        reveal_strlit("target");
        reveal_strlit("build");
        reveal_strlit("dist");
        reveal_strlit("bin");
        reveal_strlit("obj");
        reveal_strlit(".gradle");
        reveal_strlit("node_modules");
        assert(".cargo"@[0] != "target"@[0]);
        assert(".cargo"@ != "target"@);
        assert(".cargo"@.len() != "build"@.len());
        assert(".cargo"@ != "build"@);
        assert(".cargo"@.len() != "dist"@.len());
        assert(".cargo"@ != "dist"@);
        assert(".cargo"@.len() != "bin"@.len());
        assert(".cargo"@ != "bin"@);
        assert(".cargo"@.len() != "obj"@.len());
        assert(".cargo"@ != "obj"@);
        assert(".cargo"@.len() != ".gradle"@.len());
        assert(".cargo"@ != ".gradle"@);
        assert(".cargo"@.len() != "node_modules"@.len());
        assert(".cargo"@ != "node_modules"@);
    }
    assert(category_of(".m2"@) == Some(Category::PackageCache)) by {
        reveal_strlit(".m2");
        reveal_strlit("target");
        reveal_strlit("build");
        reveal_strlit("dist");
        reveal_strlit("bin");
        reveal_strlit("obj");
        reveal_strlit(".gradle");
        reveal_strlit("node_modules");
        reveal_strlit(".cargo");
        assert(".m2"@.len() != "target"@.len());
        assert(".m2"@ != "target"@);
        assert(".m2"@.len() != "build"@.len());
        assert(".m2"@ != "build"@);
        assert(".m2"@.len() != "dist"@.len());
        assert(".m2"@ != "dist"@);
        assert(".m2"@[0] != "bin"@[0]);
        assert(".m2"@ != "bin"@);
        assert(".m2"@[0] != "obj"@[0]);
        assert(".m2"@ != "obj"@);
        assert(".m2"@.len() != ".gradle"@.len());
        assert(".m2"@ != ".gradle"@);
        assert(".m2"@.len() != "node_modules"@.len());
        assert(".m2"@ != "node_modules"@);
        assert(".m2"@.len() != ".cargo"@.len());
        assert(".m2"@ != ".cargo"@);
    }
    assert(category_of("__pycache__"@) == Some(Category::PackageCache)) by {
        reveal_strlit("__pycache__");
        reveal_strlit("target");
        reveal_strlit("build");
        reveal_strlit("dist");
        reveal_strlit("bin");
        reveal_strlit("obj");
        reveal_strlit(".gradle");
        reveal_strlit("node_modules");
        reveal_strlit(".cargo");
        reveal_strlit(".m2");
        assert("__pycache__"@.len() != "target"@.len());
        assert("__pycache__"@ != "target"@);
        assert("__pycache__"@.len() != "build"@.len());
        assert("__pycache__"@ != "build"@);
        assert("__pycache__"@.len() != "dist"@.len());
        assert("__pycache__"@ != "dist"@);
        assert("__pycache__"@.len() != "bin"@.len());
        assert("__pycache__"@ != "bin"@);
        assert("__pycache__"@.len() != "obj"@.len());
        assert("__pycache__"@ != "obj"@);
        assert("__pycache__"@.len() != ".gradle"@.len());
        assert("__pycache__"@ != ".gradle"@);
        assert("__pycache__"@.len() != "node_modules"@.len());
        assert("__pycache__"@ != "node_modules"@);
        assert("__pycache__"@.len() != ".cargo"@.len());
        assert("__pycache__"@ != ".cargo"@);
        assert("__pycache__"@.len() != ".m2"@.len());
        assert("__pycache__"@ != ".m2"@);
    }
    assert(category_of(".venv"@) == Some(Category::PackageCache)) by {
        reveal_strlit(".venv");
        reveal_strlit("target");
        reveal_strlit("build");
        reveal_strlit("dist");
        reveal_strlit("bin");
        reveal_strlit("obj");
        reveal_strlit(".gradle");
        reveal_strlit("node_modules");
        reveal_strlit(".cargo");
        reveal_strlit(".m2");
        reveal_strlit("__pycache__");
        assert(".venv"@.len() != "target"@.len());
        assert(".venv"@ != "target"@);
        assert(".venv"@[0] != "build"@[0]);
        assert(".venv"@ != "build"@);
        assert(".venv"@.len() != "dist"@.len());
        assert(".venv"@ != "dist"@);
        assert(".venv"@.len() != "bin"@.len());
        assert(".venv"@ != "bin"@);
        assert(".venv"@.len() != "obj"@.len());
        assert(".venv"@ != "obj"@);
        assert(".venv"@.len() != ".gradle"@.len());
        assert(".venv"@ != ".gradle"@);
        assert(".venv"@.len() != "node_modules"@.len());
        assert(".venv"@ != "node_modules"@);
        assert(".venv"@.len() != ".cargo"@.len());
        assert(".venv"@ != ".cargo"@);
        assert(".venv"@.len() != ".m2"@.len());
        assert(".venv"@ != ".m2"@);
        assert(".venv"@.len() != "__pycache__"@.len());
        assert(".venv"@ != "__pycache__"@);
    }
    assert(category_of("venv"@) == Some(Category::PackageCache)) by {
        reveal_strlit("venv");
        reveal_strlit("target");
        reveal_strlit("build");
        reveal_strlit("dist");
        reveal_strlit("bin");
        reveal_strlit("obj");
        reveal_strlit(".gradle");
        reveal_strlit("node_modules");
        reveal_strlit(".cargo");
        reveal_strlit(".m2");
        reveal_strlit("__pycache__");
        reveal_strlit(".venv");
        assert("venv"@.len() != "target"@.len());
        assert("venv"@ != "target"@);
        assert("venv"@.len() != "build"@.len());
        assert("venv"@ != "build"@);
        assert("venv"@[0] != "dist"@[0]);
        assert("venv"@ != "dist"@);
        assert("venv"@.len() != "bin"@.len());
        assert("venv"@ != "bin"@);
        assert("venv"@.len() != "obj"@.len());
        assert("venv"@ != "obj"@);
        assert("venv"@.len() != ".gradle"@.len());
        assert("venv"@ != ".gradle"@);
        assert("venv"@.len() != "node_modules"@.len());
        assert("venv"@ != "node_modules"@);
        assert("venv"@.len() != ".cargo"@.len());
        assert("venv"@ != ".cargo"@);
        assert("venv"@.len() != ".m2"@.len());
        assert("venv"@ != ".m2"@);
        assert("venv"@.len() != "__pycache__"@.len());
        assert("venv"@ != "__pycache__"@);
        assert("venv"@.len() != ".venv"@.len());
        assert("venv"@ != ".venv"@);
    }
    assert(category_of(".npm"@) == Some(Category::PackageCache)) by {
        reveal_strlit(".npm");
        reveal_strlit("target");
        reveal_strlit("build");
        reveal_strlit("dist");
        reveal_strlit("bin");
        reveal_strlit("obj");
        reveal_strlit(".gradle");
        reveal_strlit("node_modules");
        reveal_strlit(".cargo");
        reveal_strlit(".m2");
        reveal_strlit("__pycache__");
        reveal_strlit(".venv");
        reveal_strlit("venv");
        assert(".npm"@.len() != "target"@.len());
        assert(".npm"@ != "target"@);
        assert(".npm"@.len() != "build"@.len());
        assert(".npm"@ != "build"@);
        assert(".npm"@[0] != "dist"@[0]);
        assert(".npm"@ != "dist"@);
        assert(".npm"@.len() != "bin"@.len());
        assert(".npm"@ != "bin"@);
        assert(".npm"@.len() != "obj"@.len());
        assert(".npm"@ != "obj"@);
        assert(".npm"@.len() != ".gradle"@.len());
        assert(".npm"@ != ".gradle"@);
        assert(".npm"@.len() != "node_modules"@.len());
        assert(".npm"@ != "node_modules"@);
        assert(".npm"@.len() != ".cargo"@.len());
        assert(".npm"@ != ".cargo"@);
        assert(".npm"@.len() != ".m2"@.len());
        assert(".npm"@ != ".m2"@);
        assert(".npm"@.len() != "__pycache__"@.len());
        assert(".npm"@ != "__pycache__"@);
        assert(".npm"@.len() != ".venv"@.len());
        assert(".npm"@ != ".venv"@);
        assert(".npm"@[0] != "venv"@[0]);
        assert(".npm"@ != "venv"@);
    }
    assert(category_of(".git"@) == Some(Category::VcsMetadata)) by {
        reveal_strlit(".git");
        reveal_strlit("target");
        reveal_strlit("build");
        reveal_strlit("dist");
        reveal_strlit("bin");
        reveal_strlit("obj");
        reveal_strlit(".gradle");
        reveal_strlit("node_modules");
        reveal_strlit(".cargo");
        reveal_strlit(".m2");
        reveal_strlit("__pycache__");
        reveal_strlit(".venv");
        reveal_strlit("venv");
        reveal_strlit(".npm");
        assert(".git"@.len() != "target"@.len());
        assert(".git"@ != "target"@);
        assert(".git"@.len() != "build"@.len());
        assert(".git"@ != "build"@);
        assert(".git"@[0] != "dist"@[0]);
        assert(".git"@ != "dist"@);
        assert(".git"@.len() != "bin"@.len());
        assert(".git"@ != "bin"@);
        assert(".git"@.len() != "obj"@.len());
        assert(".git"@ != "obj"@);
        assert(".git"@.len() != ".gradle"@.len());
        assert(".git"@ != ".gradle"@);
        assert(".git"@.len() != "node_modules"@.len());
        assert(".git"@ != "node_modules"@);
        assert(".git"@.len() != ".cargo"@.len());
        assert(".git"@ != ".cargo"@);
        assert(".git"@.len() != ".m2"@.len());
        assert(".git"@ != ".m2"@);
        assert(".git"@.len() != "__pycache__"@.len());
        assert(".git"@ != "__pycache__"@);
        assert(".git"@.len() != ".venv"@.len());
        assert(".git"@ != ".venv"@);
        assert(".git"@[0] != "venv"@[0]);
        assert(".git"@ != "venv"@);
        assert(".git"@[1] != ".npm"@[1]);
        assert(".git"@ != ".npm"@);
    }
    assert(category_of(".cache"@) == Some(Category::BrowserCache)) by {
        reveal_strlit(".cache");
        reveal_strlit("target");
        reveal_strlit("build");
        reveal_strlit("dist");
        reveal_strlit("bin");
        reveal_strlit("obj");
        reveal_strlit(".gradle");
        reveal_strlit("node_modules");
        reveal_strlit(".cargo");
        reveal_strlit(".m2");
        reveal_strlit("__pycache__");
        reveal_strlit(".venv");
        reveal_strlit("venv");
        reveal_strlit(".npm");
        reveal_strlit(".git");
        assert(".cache"@[0] != "target"@[0]);
        assert(".cache"@ != "target"@);
        assert(".cache"@.len() != "build"@.len());
        assert(".cache"@ != "build"@);
        assert(".cache"@.len() != "dist"@.len());
        assert(".cache"@ != "dist"@);
        assert(".cache"@.len() != "bin"@.len());
        assert(".cache"@ != "bin"@);
        assert(".cache"@.len() != "obj"@.len());
        assert(".cache"@ != "obj"@);
        assert(".cache"@.len() != ".gradle"@.len());
        assert(".cache"@ != ".gradle"@);
        assert(".cache"@.len() != "node_modules"@.len());
        assert(".cache"@ != "node_modules"@);
        assert(".cache"@[3] != ".cargo"@[3]);
        assert(".cache"@ != ".cargo"@);
        assert(".cache"@.len() != ".m2"@.len());
        assert(".cache"@ != ".m2"@);
        assert(".cache"@.len() != "__pycache__"@.len());
        assert(".cache"@ != "__pycache__"@);
        assert(".cache"@.len() != ".venv"@.len());
        assert(".cache"@ != ".venv"@);
        assert(".cache"@.len() != "venv"@.len());
        assert(".cache"@ != "venv"@);
        assert(".cache"@.len() != ".npm"@.len());
        assert(".cache"@ != ".npm"@);
        assert(".cache"@.len() != ".git"@.len());
        assert(".cache"@ != ".git"@);
    }
    assert(category_of("cachestorage"@) == Some(Category::BrowserCache)) by {
        reveal_strlit("cachestorage");
        reveal_strlit("target");
        reveal_strlit("build");
        reveal_strlit("dist");
        reveal_strlit("bin");
        reveal_strlit("obj");
        reveal_strlit(".gradle");
        reveal_strlit("node_modules");
        reveal_strlit(".cargo");
        reveal_strlit(".m2");
        reveal_strlit("__pycache__");
        reveal_strlit(".venv");
        reveal_strlit("venv");
        reveal_strlit(".npm");
        reveal_strlit(".git");
        reveal_strlit(".cache");
        assert("cachestorage"@.len() != "target"@.len());
        assert("cachestorage"@ != "target"@);
        assert("cachestorage"@.len() != "build"@.len());
        assert("cachestorage"@ != "build"@);
        assert("cachestorage"@.len() != "dist"@.len());
        assert("cachestorage"@ != "dist"@);
        assert("cachestorage"@.len() != "bin"@.len());
        assert("cachestorage"@ != "bin"@);
        assert("cachestorage"@.len() != "obj"@.len());
        assert("cachestorage"@ != "obj"@);
        assert("cachestorage"@.len() != ".gradle"@.len());
        assert("cachestorage"@ != ".gradle"@);
        assert("cachestorage"@[0] != "node_modules"@[0]);
        assert("cachestorage"@ != "node_modules"@);
        assert("cachestorage"@.len() != ".cargo"@.len());
        assert("cachestorage"@ != ".cargo"@);
        assert("cachestorage"@.len() != ".m2"@.len());
        assert("cachestorage"@ != ".m2"@);
        assert("cachestorage"@.len() != "__pycache__"@.len());
        assert("cachestorage"@ != "__pycache__"@);
        assert("cachestorage"@.len() != ".venv"@.len());
        assert("cachestorage"@ != ".venv"@);
        assert("cachestorage"@.len() != "venv"@.len());
        assert("cachestorage"@ != "venv"@);
        assert("cachestorage"@.len() != ".npm"@.len());
        assert("cachestorage"@ != ".npm"@);
        assert("cachestorage"@.len() != ".git"@.len());
        assert("cachestorage"@ != ".git"@);
        assert("cachestorage"@.len() != ".cache"@.len());
        assert("cachestorage"@ != ".cache"@);
    }
    assert(category_of("tmp"@) == Some(Category::TempFiles)) by {
        reveal_strlit("tmp");
        reveal_strlit("target");
        reveal_strlit("build");
        reveal_strlit("dist");
        reveal_strlit("bin");
        reveal_strlit("obj");
        reveal_strlit(".gradle");
        reveal_strlit("node_modules");
        reveal_strlit(".cargo");
        reveal_strlit(".m2");
        reveal_strlit("__pycache__");
        reveal_strlit(".venv");
        reveal_strlit("venv");
        reveal_strlit(".npm");
        reveal_strlit(".git");
        reveal_strlit(".cache");
        reveal_strlit("cachestorage");
        assert("tmp"@.len() != "target"@.len());
        assert("tmp"@ != "target"@);
        assert("tmp"@.len() != "build"@.len());
        assert("tmp"@ != "build"@);
        assert("tmp"@.len() != "dist"@.len());
        assert("tmp"@ != "dist"@);
        assert("tmp"@[0] != "bin"@[0]);
        assert("tmp"@ != "bin"@);
        assert("tmp"@[0] != "obj"@[0]);
        assert("tmp"@ != "obj"@);
        assert("tmp"@.len() != ".gradle"@.len());
        assert("tmp"@ != ".gradle"@);
        assert("tmp"@.len() != "node_modules"@.len());
        assert("tmp"@ != "node_modules"@);
        assert("tmp"@.len() != ".cargo"@.len());
        assert("tmp"@ != ".cargo"@);
        assert("tmp"@[0] != ".m2"@[0]);
        assert("tmp"@ != ".m2"@);
        assert("tmp"@.len() != "__pycache__"@.len());
        assert("tmp"@ != "__pycache__"@);
        assert("tmp"@.len() != ".venv"@.len());
        assert("tmp"@ != ".venv"@);
        assert("tmp"@.len() != "venv"@.len());
        assert("tmp"@ != "venv"@);
        assert("tmp"@.len() != ".npm"@.len());
        assert("tmp"@ != ".npm"@);
        assert("tmp"@.len() != ".git"@.len());
        assert("tmp"@ != ".git"@);
        assert("tmp"@.len() != ".cache"@.len());
        assert("tmp"@ != ".cache"@);
        assert("tmp"@.len() != "cachestorage"@.len());
        assert("tmp"@ != "cachestorage"@);
    }
    assert(category_of("temp"@) == Some(Category::TempFiles)) by {
        reveal_strlit("temp");
        reveal_strlit("target");
        reveal_strlit("build");
        reveal_strlit("dist");
        reveal_strlit("bin");
        reveal_strlit("obj");
        reveal_strlit(".gradle");
        reveal_strlit("node_modules");
        reveal_strlit(".cargo");
        reveal_strlit(".m2");
        reveal_strlit("__pycache__");
        reveal_strlit(".venv");
        reveal_strlit("venv");
        reveal_strlit(".npm");
        reveal_strlit(".git");
        reveal_strlit(".cache");
        reveal_strlit("cachestorage");
        reveal_strlit("tmp");
        assert("temp"@.len() != "target"@.len());
        assert("temp"@ != "target"@);
        assert("temp"@.len() != "build"@.len());
        assert("temp"@ != "build"@);
        assert("temp"@[0] != "dist"@[0]);
        assert("temp"@ != "dist"@);
        assert("temp"@.len() != "bin"@.len());
        assert("temp"@ != "bin"@);
        assert("temp"@.len() != "obj"@.len());
        assert("temp"@ != "obj"@);
        assert("temp"@.len() != ".gradle"@.len());
        assert("temp"@ != ".gradle"@);
        assert("temp"@.len() != "node_modules"@.len());
        assert("temp"@ != "node_modules"@);
        assert("temp"@.len() != ".cargo"@.len());
        assert("temp"@ != ".cargo"@);
        assert("temp"@.len() != ".m2"@.len());
        assert("temp"@ != ".m2"@);
        assert("temp"@.len() != "__pycache__"@.len());
        assert("temp"@ != "__pycache__"@);
        assert("temp"@.len() != ".venv"@.len());
        assert("temp"@ != ".venv"@);
        assert("temp"@[0] != "venv"@[0]);
        assert("temp"@ != "venv"@);
        assert("temp"@[0] != ".npm"@[0]);
        assert("temp"@ != ".npm"@);
        assert("temp"@[0] != ".git"@[0]);
        assert("temp"@ != ".git"@);
        assert("temp"@.len() != ".cache"@.len());
        assert("temp"@ != ".cache"@);
        assert("temp"@.len() != "cachestorage"@.len());
        assert("temp"@ != "cachestorage"@);
        assert("temp"@.len() != "tmp"@.len());
        assert("temp"@ != "tmp"@);
    }
    assert(category_of("logs"@) == Some(Category::Logs)) by {
        reveal_strlit("logs");
        reveal_strlit("target");
        reveal_strlit("build");
        reveal_strlit("dist");
        reveal_strlit("bin");
        reveal_strlit("obj");
        reveal_strlit(".gradle");
        reveal_strlit("node_modules");
        reveal_strlit(".cargo");
        reveal_strlit(".m2");
        reveal_strlit("__pycache__");
        reveal_strlit(".venv");
        reveal_strlit("venv");
        reveal_strlit(".npm");
        reveal_strlit(".git");
        reveal_strlit(".cache");
        reveal_strlit("cachestorage");
        reveal_strlit("tmp");
        reveal_strlit("temp");
        assert("logs"@.len() != "target"@.len());
        assert("logs"@ != "target"@);
        assert("logs"@.len() != "build"@.len());
        assert("logs"@ != "build"@);
        assert("logs"@[0] != "dist"@[0]);
        assert("logs"@ != "dist"@);
        assert("logs"@.len() != "bin"@.len());
        assert("logs"@ != "bin"@);
        assert("logs"@.len() != "obj"@.len());
        assert("logs"@ != "obj"@);
        assert("logs"@.len() != ".gradle"@.len());
        assert("logs"@ != ".gradle"@);
        assert("logs"@.len() != "node_modules"@.len());
        assert("logs"@ != "node_modules"@);
        assert("logs"@.len() != ".cargo"@.len());
        assert("logs"@ != ".cargo"@);
        assert("logs"@.len() != ".m2"@.len());
        assert("logs"@ != ".m2"@);
        assert("logs"@.len() != "__pycache__"@.len());
        assert("logs"@ != "__pycache__"@);
        assert("logs"@.len() != ".venv"@.len());
        assert("logs"@ != ".venv"@);
        assert("logs"@[0] != "venv"@[0]);
        assert("logs"@ != "venv"@);
        assert("logs"@[0] != ".npm"@[0]);
        assert("logs"@ != ".npm"@);
        assert("logs"@[0] != ".git"@[0]);
        assert("logs"@ != ".git"@);
        assert("logs"@.len() != ".cache"@.len());
        assert("logs"@ != ".cache"@);
        assert("logs"@.len() != "cachestorage"@.len());
        assert("logs"@ != "cachestorage"@);
        assert("logs"@.len() != "tmp"@.len());
        assert("logs"@ != "tmp"@);
        assert("logs"@[0] != "temp"@[0]);
        assert("logs"@ != "temp"@);
    }
}

/// Names that are not in the pattern table are not reported.
pub proof fn lemma_unlisted_names(lower: Seq<char>)
    requires
        lower != "target"@,
        lower != "build"@,
        lower != "dist"@,
        lower != "bin"@,
        lower != "obj"@,
        lower != ".gradle"@,
        lower != "node_modules"@,
        lower != ".cargo"@,
        lower != ".m2"@,
        lower != "__pycache__"@,
        lower != ".venv"@,
        lower != "venv"@,
        lower != ".npm"@,
        lower != ".git"@,
        lower != ".cache"@,
        lower != "cachestorage"@,
        lower != "tmp"@,
        lower != "temp"@,
        lower != "logs"@,
    ensures
        category_of(lower) is None,
{
}

/// The category of a directory named `dir_name`, compared without regard to
/// case.
pub fn match_category(dir_name: &str) -> (c: Option<Category>)
    ensures
        c == category_of(lowercase(dir_name@)),
{
    let lower = to_lowercase(dir_name);
    let l = lower.as_str();
    let build: [&str; 6] = ["target", "build", "dist", "bin", "obj", ".gradle"];
    let packages: [&str; 7] = ["node_modules", ".cargo", ".m2", "__pycache__", ".venv", "venv", ".npm"];
    let caches: [&str; 2] = [".cache", "cachestorage"];
    let temps: [&str; 2] = ["tmp", "temp"];
    if is_any(l, &build) {
        Some(Category::BuildArtifact)
    } else if is_any(l, &packages) {
        Some(Category::PackageCache)
    } else if str_eq(l, ".git") {
        Some(Category::VcsMetadata)
    } else if is_any(l, &caches) {
        Some(Category::BrowserCache)
    } else if is_any(l, &temps) {
        Some(Category::TempFiles)
    } else if str_eq(l, "logs") {
        Some(Category::Logs)
    } else {
        None
    }
}

/// A directory worth looking at before deleting anything.
pub struct CleanupFinding {
    pub name: String,
    pub path: String,
    pub category: Category,
    pub size: u64,
    pub file_count: u64,
}

/// The category a node is reported under, if any: directories only.
pub open spec fn node_category(n: DirNode) -> Option<Category> {
    if n.is_dir {
        category_of(lowercase(n.name@))
    } else {
        None
    }
}

/// The directories reported for the tree under `n`, in depth-first order. A
/// directory that matches is reported once and not searched further.
pub open spec fn cleanup_nodes(n: DirNode) -> Seq<DirNode>
    decreases n, 0int,
{
    if !n.is_dir {
        Seq::empty()
    } else if node_category(n) is Some {
        seq![n]
    } else {
        cleanup_in(n.children, n.children@.len() as int)
    }
}

/// The directories reported for the first `k` entries of `v`, in order.
pub open spec fn cleanup_in(v: Vec<DirNode>, k: int) -> Seq<DirNode>
    decreases v, k,
{
    if k <= 0 || k > v@.len() {
        Seq::empty()
    } else {
        cleanup_in(v, k - 1) + cleanup_nodes(v@[k - 1])
    }
}

/// `f` reports the directory `n`.
pub open spec fn reports(f: CleanupFinding, n: DirNode) -> bool {
    &&& f.name@ == n.name@
    &&& f.path@ == n.path@
    &&& node_category(n) == Some(f.category)
    &&& f.size == n.size
    &&& f.file_count == n.file_count
}

/// A finding as plain values: name, path, category, size and file count.
pub open spec fn finding_view(f: CleanupFinding) -> (Seq<char>, Seq<char>, Category, u64, u64) {
    (f.name@, f.path@, f.category, f.size, f.file_count)
}

/// Findings as plain values, in order.
pub open spec fn findings_view(s: Seq<CleanupFinding>) -> Seq<(Seq<char>, Seq<char>, Category, u64, u64)> {
    s.map_values(|f: CleanupFinding| finding_view(f))
}

/// The findings that report `nodes`, in order, as plain values.
pub open spec fn findings_for(nodes: Seq<DirNode>) -> Seq<(Seq<char>, Seq<char>, Category, u64, u64)> {
    nodes.map_values(|n: DirNode| (n.name@, n.path@, node_category(n)->0, n.size, n.file_count))
}

/// Findings that keep `o` and then report `nodes` one by one are `o`
/// followed by the findings for `nodes`.
proof fn lemma_findings_appended(o: Seq<CleanupFinding>, n: Seq<CleanupFinding>, nodes: Seq<DirNode>)
    requires
        n.len() == o.len() + nodes.len(),
        forall|i: int| 0 <= i < o.len() ==> #[trigger] n[i] == o[i],
        forall|i: int| 0 <= i < nodes.len() ==> reports(#[trigger] n[o.len() + i], nodes[i]),
    ensures
        findings_view(n) == findings_view(o) + findings_for(nodes),
{
    assert forall|i: int| 0 <= i < n.len() implies #[trigger] findings_view(n)[i] == (findings_view(o) + findings_for(nodes))[i] by {
        if i >= o.len() {
            assert(reports(n[o.len() + (i - o.len())], nodes[i - o.len()]));
        }
    }
    assert(findings_view(n) =~= findings_view(o) + findings_for(nodes));
}

/// Walks the tree under `root` and reports every directory whose name marks
/// it as disposable (see `cleanup_nodes`).
pub fn scan(root: &DirNode) -> (findings: Vec<CleanupFinding>)
    ensures
        findings@.len() == cleanup_nodes(*root).len(),
        forall|i: int| 0 <= i < findings@.len() ==> reports(#[trigger] findings@[i], cleanup_nodes(*root)[i]),
        findings_view(findings@) == findings_for(cleanup_nodes(*root)),
{
    let mut findings: Vec<CleanupFinding> = Vec::new();
    collect(root, &mut findings);
    assert forall|i: int| 0 <= i < findings@.len() implies reports(#[trigger] findings@[i], cleanup_nodes(*root)[i]) by {
        assert(reports(findings@[0 + i], cleanup_nodes(*root)[i]));
    }
    assert(findings_view(Seq::<CleanupFinding>::empty()) + findings_for(cleanup_nodes(*root)) =~= findings_for(cleanup_nodes(*root)));
    findings
}

/// Appends to `out` the findings for the tree under `node`, keeping what
/// `out` held before.
fn collect(node: &DirNode, out: &mut Vec<CleanupFinding>)
    ensures
        final(out)@.len() == old(out)@.len() + cleanup_nodes(*node).len(),
        forall|i: int| 0 <= i < old(out)@.len() ==> #[trigger] final(out)@[i] == old(out)@[i],
        forall|i: int| 0 <= i < cleanup_nodes(*node).len() ==> reports(
            #[trigger] final(out)@[old(out)@.len() + i],
            cleanup_nodes(*node)[i],
        ),
        findings_view(final(out)@) == findings_view(old(out)@) + findings_for(cleanup_nodes(*node)),
    decreases node, 0int,
{
    if !node.is_dir {
        proof {
            lemma_findings_appended(old(out)@, out@, cleanup_nodes(*node));
        }
        return;
    }
    if let Some(category) = match_category(node.name.as_str()) {
        out.push(CleanupFinding {
            name: node.name.clone(),
            path: node.path.clone(),
            category,
            size: node.size,
            file_count: node.file_count,
        });
        proof {
            assert(out@[old(out)@.len() as int + 0] == out@.last());
            lemma_findings_appended(old(out)@, out@, cleanup_nodes(*node));
        }
        return;
    }
    let ghost start = out@.len();
    let mut k: usize = 0;
    while k < node.children.len()
        invariant
            k <= node.children@.len(),
            node.is_dir,
            node_category(*node) is None,
            old(out)@.len() == start,
            out@.len() == start + cleanup_in(node.children, k as int).len(),
            forall|i: int| 0 <= i < start ==> #[trigger] out@[i] == old(out)@[i],
            forall|i: int| 0 <= i < cleanup_in(node.children, k as int).len() ==> reports(
                #[trigger] out@[start + i],
                cleanup_in(node.children, k as int)[i],
            ),
        decreases node.children@.len() - k,
    {
        let ghost before = out@;
        collect(&node.children[k], out);
        proof {
            let prev = cleanup_in(node.children, k as int);
            let added = cleanup_nodes(node.children@[k as int]);
            assert(cleanup_in(node.children, k + 1) == prev + added);
            assert forall|i: int| 0 <= i < prev.len() + added.len() implies reports(
                #[trigger] out@[start + i],
                (prev + added)[i],
            ) by {
                if i < prev.len() {
                    assert(out@[start + i] == before[start + i]);
                } else {
                    assert(out@[before.len() + (i - prev.len())] == out@[start + i]);
                }
            }
        }
        k = k + 1;
    }
    proof {
        lemma_findings_appended(old(out)@, out@, cleanup_nodes(*node));
    }
}

/// The reclaimable bytes among `findings`: version control metadata is not
/// counted, since it should not be deleted casually.
pub open spec fn reclaimable(findings: Seq<CleanupFinding>) -> int
    decreases findings.len(),
{
    if findings.len() == 0 {
        0
    } else {
        let f = findings.last();
        reclaimable(findings.drop_last()) + if f.category == Category::VcsMetadata { 0 } else { f.size as int }
    }
}

proof fn lemma_reclaimable_prefix(s: Seq<CleanupFinding>, i: int)
    requires
        0 <= i <= s.len(),
    ensures
        0 <= reclaimable(s.subrange(0, i)) <= reclaimable(s),
    decreases s.len(),
{
    if i == s.len() {
        assert(s.subrange(0, i) =~= s);
        if s.len() > 0 {
            lemma_reclaimable_prefix(s.drop_last(), i - 1);
            assert(s.drop_last().subrange(0, i - 1) =~= s.drop_last());
        }
    } else {
        lemma_reclaimable_prefix(s.drop_last(), i);
        assert(s.drop_last().subrange(0, i) =~= s.subrange(0, i));
    }
}

/// Total reclaimable bytes across all findings, leaving out version control
/// metadata.
pub fn reclaimable_bytes(findings: &[CleanupFinding]) -> (total: u64)
    requires
        reclaimable(findings@) <= u64::MAX,
    ensures
        total == reclaimable(findings@),
{
    let mut total: u64 = 0;
    let mut i: usize = 0;
    while i < findings.len()
        invariant
            i <= findings@.len(),
            reclaimable(findings@) <= u64::MAX,
            total == reclaimable(findings@.subrange(0, i as int)),
        decreases findings@.len() - i,
    {
        proof {
            assert(findings@.subrange(0, i + 1).drop_last() =~= findings@.subrange(0, i as int));
            lemma_reclaimable_prefix(findings@, i + 1);
        }
        let f = &findings[i];
        if f.category != Category::VcsMetadata {
            total = total + f.size;
        }
        i = i + 1;
    }
    proof {
        assert(findings@.subrange(0, i as int) =~= findings@);
    }
    total
}

} // verus!
