//! The built-in framework registry. Its declaration order is part of the
//! observable contract: the matcher consults it front to back and the first
//! hit wins, so every entry's position and content is pinned down here.

use vstd::prelude::*;

use crate::project::{DeepDetectionMatcher, Framework, FrameworkView};

verus! {

pub open spec fn spec_is_nextjs(f: FrameworkView) -> bool {
    &&& f.name == "nextjs"@
    &&& f.identity_files.len() == 4
    &&& f.identity_files[0] == "next.config.js"@
    &&& f.identity_files[1] == "next.config.ts"@
    &&& f.identity_files[2] == "next.config.mjs"@
    &&& f.identity_files[3] == "next.config.cjs"@
    &&& f.proj_identity_keywords.len() == 0
    &&& f.deep_detection_matchers.len() == 0
    &&& f.commands.len() == 3
    &&& f.commands[0] == "dev"@
    &&& f.commands[1] == "build"@
    &&& f.commands[2] == "start"@
}

pub open spec fn spec_is_nuxt(f: FrameworkView) -> bool {
    &&& f.name == "nuxt"@
    &&& f.identity_files.len() == 2
    &&& f.identity_files[0] == "nuxt.config.js"@
    &&& f.identity_files[1] == "nuxt.config.ts"@
    &&& f.proj_identity_keywords.len() == 0
    &&& f.deep_detection_matchers.len() == 0
    &&& f.commands.len() == 3
    &&& f.commands[0] == "dev"@
    &&& f.commands[1] == "build"@
    &&& f.commands[2] == "start"@
}

pub open spec fn spec_is_angular(f: FrameworkView) -> bool {
    &&& f.name == "angular"@
    &&& f.identity_files.len() == 1
    &&& f.identity_files[0] == "angular.json"@
    &&& f.proj_identity_keywords.len() == 1
    &&& f.proj_identity_keywords[0] == "@angular"@
    &&& f.deep_detection_matchers.len() == 0
    &&& f.commands.len() == 2
    &&& f.commands[0] == "serve"@
    &&& f.commands[1] == "build"@
}

pub open spec fn spec_is_nestjs(f: FrameworkView) -> bool {
    &&& f.name == "nestjs"@
    &&& f.identity_files.len() == 0
    &&& f.proj_identity_keywords.len() == 0
    &&& f.deep_detection_matchers.len() == 1
    &&& f.deep_detection_matchers[0].path == "src/main.ts"@
    &&& f.deep_detection_matchers[0].keyword == "@nestjs/common"@
    &&& f.commands.len() == 2
    &&& f.commands[0] == "start"@
    &&& f.commands[1] == "build"@
}

pub open spec fn spec_is_cypress(f: FrameworkView) -> bool {
    &&& f.name == "cypress"@
    &&& f.identity_files.len() == 5
    &&& f.identity_files[0] == "cypress.config.ts"@
    &&& f.identity_files[1] == "cypress.json"@
    &&& f.identity_files[2] == "cypress.config.js"@
    &&& f.identity_files[3] == "cypress.config.mjs"@
    &&& f.identity_files[4] == "cypress.config.cjs"@
    &&& f.proj_identity_keywords.len() == 0
    &&& f.deep_detection_matchers.len() == 0
    &&& f.commands.len() == 2
    &&& f.commands[0] == "open-cypress"@
    &&& f.commands[1] == "e2e"@
}

pub open spec fn spec_is_vite(f: FrameworkView) -> bool {
    &&& f.name == "Vite"@
    &&& f.identity_files.len() == 6
    &&& f.identity_files[0] == "vite.config.ts"@
    &&& f.identity_files[1] == "vite.config.js"@
    &&& f.identity_files[2] == "vite.config.mjs"@
    &&& f.identity_files[3] == "vite.config.cjs"@
    &&& f.identity_files[4] == "vite.config.mts"@
    &&& f.identity_files[5] == "vite.config.cts"@
    &&& f.proj_identity_keywords.len() == 0
    &&& f.deep_detection_matchers.len() == 0
    &&& f.commands.len() == 2
    &&& f.commands[0] == "serve"@
    &&& f.commands[1] == "build"@
}

/// The whole registry, in its binding declaration order.
pub open spec fn spec_known_frameworks(fs: Seq<FrameworkView>) -> bool {
    &&& fs.len() == 6
    &&& spec_is_nextjs(fs[0])
    &&& spec_is_nuxt(fs[1])
    &&& spec_is_angular(fs[2])
    &&& spec_is_nestjs(fs[3])
    &&& spec_is_cypress(fs[4])
    &&& spec_is_vite(fs[5])
}

fn nextjs() -> (f: Framework)
    ensures
        spec_is_nextjs(f@),
{
    let mut identity_files: Vec<String> = Vec::new();
    identity_files.push("next.config.js".to_owned());
    identity_files.push("next.config.ts".to_owned());
    identity_files.push("next.config.mjs".to_owned());
    identity_files.push("next.config.cjs".to_owned());
    let mut commands: Vec<String> = Vec::new();
    commands.push("dev".to_owned());
    commands.push("build".to_owned());
    commands.push("start".to_owned());
    Framework {
        name: "nextjs".to_owned(),
        identity_files,
        proj_identity_keywords: Vec::new(),
        deep_detection_matchers: Vec::new(),
        commands,
    }
}

fn nuxt() -> (f: Framework)
    ensures
        spec_is_nuxt(f@),
{
    let mut identity_files: Vec<String> = Vec::new();
    identity_files.push("nuxt.config.js".to_owned());
    identity_files.push("nuxt.config.ts".to_owned());
    let mut commands: Vec<String> = Vec::new();
    commands.push("dev".to_owned());
    commands.push("build".to_owned());
    commands.push("start".to_owned());
    Framework {
        name: "nuxt".to_owned(),
        identity_files,
        proj_identity_keywords: Vec::new(),
        deep_detection_matchers: Vec::new(),
        commands,
    }
}

fn angular() -> (f: Framework)
    ensures
        spec_is_angular(f@),
{
    let mut identity_files: Vec<String> = Vec::new();
    identity_files.push("angular.json".to_owned());
    let mut proj_identity_keywords: Vec<String> = Vec::new();
    proj_identity_keywords.push("@angular".to_owned());
    let mut commands: Vec<String> = Vec::new();
    commands.push("serve".to_owned());
    commands.push("build".to_owned());
    Framework {
        name: "angular".to_owned(),
        identity_files,
        proj_identity_keywords,
        deep_detection_matchers: Vec::new(),
        commands,
    }
}

fn nestjs() -> (f: Framework)
    ensures
        spec_is_nestjs(f@),
{
    let mut deep_detection_matchers: Vec<DeepDetectionMatcher> = Vec::new();
    deep_detection_matchers.push(
        DeepDetectionMatcher { path: "src/main.ts".to_owned(), keyword: "@nestjs/common".to_owned() },
    );
    let mut commands: Vec<String> = Vec::new();
    commands.push("start".to_owned());
    commands.push("build".to_owned());
    Framework {
        name: "nestjs".to_owned(),
        identity_files: Vec::new(),
        proj_identity_keywords: Vec::new(),
        deep_detection_matchers,
        commands,
    }
}

fn cypress() -> (f: Framework)
    ensures
        spec_is_cypress(f@),
{
    let mut identity_files: Vec<String> = Vec::new();
    identity_files.push("cypress.config.ts".to_owned());
    identity_files.push("cypress.json".to_owned());
    identity_files.push("cypress.config.js".to_owned());
    identity_files.push("cypress.config.mjs".to_owned());
    identity_files.push("cypress.config.cjs".to_owned());
    let mut commands: Vec<String> = Vec::new();
    commands.push("open-cypress".to_owned());
    commands.push("e2e".to_owned());
    Framework {
        name: "cypress".to_owned(),
        identity_files,
        proj_identity_keywords: Vec::new(),
        deep_detection_matchers: Vec::new(),
        commands,
    }
}

fn vite() -> (f: Framework)
    ensures
        spec_is_vite(f@),
{
    let mut identity_files: Vec<String> = Vec::new();
    identity_files.push("vite.config.ts".to_owned());
    identity_files.push("vite.config.js".to_owned());
    identity_files.push("vite.config.mjs".to_owned());
    identity_files.push("vite.config.cjs".to_owned());
    identity_files.push("vite.config.mts".to_owned());
    identity_files.push("vite.config.cts".to_owned());
    let mut commands: Vec<String> = Vec::new();
    commands.push("serve".to_owned());
    commands.push("build".to_owned());
    Framework {
        name: "Vite".to_owned(),
        identity_files,
        proj_identity_keywords: Vec::new(),
        deep_detection_matchers: Vec::new(),
        commands,
    }
}

/// Builds the registry the matcher walks, in declaration order.
pub fn known_frameworks() -> (fs: Vec<Framework>)
    ensures
        spec_known_frameworks(fs.deep_view()),
{
    let mut fs: Vec<Framework> = Vec::new();
    fs.push(nextjs());
    fs.push(nuxt());
    fs.push(angular());
    fs.push(nestjs());
    fs.push(cypress());
    fs.push(vite());
    fs
}

} // verus!
