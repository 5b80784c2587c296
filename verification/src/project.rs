//! The project descriptor (`test.proj`): the game project the editor works
//! on and how to build it.
use vstd::prelude::*;
use crate::prefab_types::{clone_strings, strings_view};

verus! {

/// The game project: its name, its folder, and extra `cargo build`
/// arguments.
#[derive(Debug)]
pub struct Project {
    pub name: String,
    pub project_path: String,
    pub build_args: Vec<String>,
}

/// Model of a project descriptor.
pub struct ProjectView {
    pub name: Seq<char>,
    pub project_path: Seq<char>,
    pub build_args: Seq<Seq<char>>,
}

impl View for Project {
    type V = ProjectView;

    open spec fn view(&self) -> ProjectView {
        ProjectView { name: self.name@, project_path: self.project_path@, build_args: strings_view(self.build_args@) }
    }
}

impl Clone for Project {
    fn clone(&self) -> (r: Self)
        ensures
            r@ == self@,
    {
        Project { name: self.name.clone(), project_path: self.project_path.clone(), build_args: clone_strings(&self.build_args) }
    }
}

impl Default for Project {
    fn default() -> (r: Self)
        ensures
            r@.name.len() == 0,
            r@.project_path.len() == 0,
            r@.build_args.len() == 0,
    {
        let r = Project { name: String::new(), project_path: String::new(), build_args: Vec::new() };
        assert(strings_view(r.build_args@) =~= Seq::<Seq<char>>::empty());
        r
    }
}

/// The arguments of the build command: `build`, then the project's own.
pub fn build_command_args(project: &Project) -> (r: Vec<String>)
    ensures
        strings_view(r@) == seq!["build"@] + strings_view(project.build_args@),
{
    let mut out: Vec<String> = Vec::new();
    out.push("build".to_string());
    let mut i: usize = 0;
    while i < project.build_args.len()
        invariant
            i <= project.build_args@.len(),
            strings_view(out@) == seq!["build"@] + strings_view(project.build_args@).take(i as int),
        decreases project.build_args@.len() - i,
    {
        let a = project.build_args[i].clone();
        let ghost before = out@;
        out.push(a);
        proof {
            assert(strings_view(out@) =~= strings_view(before).push(project.build_args@[i as int]@));
            assert(strings_view(project.build_args@).take(i + 1) =~= strings_view(project.build_args@).take(i as int).push(
                project.build_args@[i as int]@,
            ));
        }
        i += 1;
    }
    proof {
        assert(strings_view(project.build_args@).take(project.build_args@.len() as int) =~= strings_view(project.build_args@));
    }
    out
}

/// The engine services the editor hands to a game; it carries no data.
pub struct Services {}

} // verus!
