//! Project scaffolding: the files each template produces for a project
//! name.  Writing them to disk is the caller's work.

use vstd::prelude::*;

verus! {

/// The closed set of project templates.
#[derive(Clone, Copy, Debug, PartialEq, Eq, Structural)]
pub enum TemplateType {
    Rust,
    Web,
    Cli,
}

/// One file to create: its path inside the project and its content.
pub struct ProjectFile {
    pub path: String,
    pub content: String,
}

impl View for ProjectFile {
    type V = (Seq<char>, Seq<char>);

    open spec fn view(&self) -> (Seq<char>, Seq<char>) {
        (self.path@, self.content@)
    }
}

/// The files a template produces for a project name.
pub open spec fn template_files_spec(t: TemplateType, name: Seq<char>) -> Seq<
    (Seq<char>, Seq<char>),
> {
    match t {
        TemplateType::Rust => seq![
            (
                "Cargo.toml"@,
                "[package]\nname = \""@ + name
                    + "\"\nversion = \"0.1.0\"\nedition = \"2021\"\n"@,
            ),
            ("src/main.rs"@, "fn main() {\n    println!(\"Hello World!\");\n}"@),
            ("README.md"@, "# Rust "@ + name + "\nA simple Rust project."@),
            (".gitignore"@, "**/*.rs.bk \n"@),
        ],
        TemplateType::Web => seq![
            (
                "index.html"@,
                "<html><head><title>"@ + name + "</title></head><body></body></html>"@,
            ),
            ("style.css"@, "/* CSS */"@),
            ("script.js"@, "// JavaScript"@),
            ("README.md"@, "# WEB\nA simple web project for "@ + name + "."@),
        ],
        TemplateType::Cli => seq![
            ("README.md"@, "# CLI "@ + name + "\nUsage: ./"@ + name + " [options]"@),
        ],
    }
}

/// Builds the files of the chosen template for a project name.
pub fn generate_template_files(t: TemplateType, name: &str) -> (r: Vec<ProjectFile>)
    ensures
        r@.map_values(|f: ProjectFile| f@) == template_files_spec(t, name@),
{
    let mut out: Vec<ProjectFile> = Vec::new();
    match t {
        TemplateType::Rust => {
            let mut cargo = String::from_str("[package]\nname = \"");
            cargo.append(name);
            cargo.append("\"\nversion = \"0.1.0\"\nedition = \"2021\"\n");
            out.push(ProjectFile { path: String::from_str("Cargo.toml"), content: cargo });
            out.push(
                ProjectFile {
                    path: String::from_str("src/main.rs"),
                    content: String::from_str("fn main() {\n    println!(\"Hello World!\");\n}"),
                },
            );
            let mut readme = String::from_str("# Rust ");
            readme.append(name);
            readme.append("\nA simple Rust project.");
            out.push(ProjectFile { path: String::from_str("README.md"), content: readme });
            out.push(
                ProjectFile {
                    path: String::from_str(".gitignore"),
                    content: String::from_str("**/*.rs.bk \n"),
                },
            );
            proof {
                assert(out@.map_values(|f: ProjectFile| f@) =~= template_files_spec(t, name@));
            }
        },
        TemplateType::Web => {
            let mut index = String::from_str("<html><head><title>");
            index.append(name);
            index.append("</title></head><body></body></html>");
            out.push(ProjectFile { path: String::from_str("index.html"), content: index });
            out.push(
                ProjectFile {
                    path: String::from_str("style.css"),
                    content: String::from_str("/* CSS */"),
                },
            );
            out.push(
                ProjectFile {
                    path: String::from_str("script.js"),
                    content: String::from_str("// JavaScript"),
                },
            );
            let mut readme = String::from_str("# WEB\nA simple web project for ");
            readme.append(name);
            readme.append(".");
            out.push(ProjectFile { path: String::from_str("README.md"), content: readme });
            proof {
                assert(out@.map_values(|f: ProjectFile| f@) =~= template_files_spec(t, name@));
            }
        },
        TemplateType::Cli => {
            let mut readme = String::from_str("# CLI ");
            readme.append(name);
            readme.append("\nUsage: ./");
            readme.append(name);
            readme.append(" [options]");
            out.push(ProjectFile { path: String::from_str("README.md"), content: readme });
            proof {
                assert(out@.map_values(|f: ProjectFile| f@) =~= template_files_spec(t, name@));
            }
        },
    }
    out
}

} // verus!
