//! Configuration values and the precedence rules that combine them with
//! call-site arguments: an explicit argument wins, then the config file,
//! then the built-in default.

use vstd::prelude::*;

verus! {

/// Optional defaults loaded from a config file; paths are kept as
/// slash-separated strings relative to the file's own directory until
/// `resolve_paths` anchors them.
pub struct Config {
    pub input: Option<String>,
    pub template: Option<String>,
    pub exclude: Option<Vec<String>>,
    pub preview: Option<PreviewConfig>,
}

/// Preview-mode defaults of a config file.
pub struct PreviewConfig {
    pub port: Option<u16>,
    pub open: Option<bool>,
}

/// Where a configured path points: itself when absolute, else under the
/// config file's directory.
pub open spec fn resolve_path_spec(base: Seq<char>, path: Seq<char>) -> Seq<char> {
    if path.len() > 0 && path[0] == '/' {
        path
    } else if base.len() == 0 {
        path
    } else if base[base.len() - 1] == '/' {
        base + path
    } else {
        base + seq!['/'] + path
    }
}

/// Anchor a configured path against the config file's directory.
pub fn resolve_path(base: &str, path: &str) -> (r: String)
    ensures
        r@ == resolve_path_spec(base@, path@),
{
    let pv = crate::text::str_chars(path);
    let bv = crate::text::str_chars(base);
    if pv.len() > 0 && pv[0] == '/' {
        return path.to_owned();
    }
    if bv.len() == 0 {
        return path.to_owned();
    }
    let mut out: Vec<char> = Vec::new();
    crate::text::push_all(&mut out, &bv);
    if bv[bv.len() - 1] != '/' {
        out.push('/');
    }
    crate::text::push_all(&mut out, &pv);
    proof {
        if base@[base@.len() - 1] == '/' {
            assert(out@ =~= base@ + path@);
        } else {
            assert(out@ =~= base@ + seq!['/'] + path@);
        }
    }
    crate::text::chars_string(&out)
}

impl Config {
    /// Anchor the configured input and template paths against the config
    /// file's directory; everything else is untouched.
    pub fn resolve_paths(&mut self, base: &str)
        ensures
            match (old(self).input, final(self).input) {
                (Some(p), Some(q)) => q@ == resolve_path_spec(base@, p@),
                (None, None) => true,
                _ => false,
            },
            match (old(self).template, final(self).template) {
                (Some(p), Some(q)) => q@ == resolve_path_spec(base@, p@),
                (None, None) => true,
                _ => false,
            },
            final(self).exclude == old(self).exclude,
            final(self).preview == old(self).preview,
    {
        let input = match &self.input {
            Some(p) => Some(resolve_path(base, p.as_str())),
            None => None,
        };
        self.input = input;
        let template = match &self.template {
            Some(p) => Some(resolve_path(base, p.as_str())),
            None => None,
        };
        self.template = template;
    }
}

/// The input root used: the explicit argument, else the configured one,
/// else the current directory.
pub fn resolve_input(input: Option<String>, config: Option<&Config>) -> (r: String)
    ensures
        r@ == match input {
            Some(p) => p@,
            None => match config {
                Some(c) => match c.input {
                    Some(p) => p@,
                    None => "."@,
                },
                None => "."@,
            },
        },
{
    match input {
        Some(p) => p,
        None => {
            let fallback = ".".to_owned();
            match config {
                Some(c) => match &c.input {
                    Some(p) => p.clone(),
                    None => fallback,
                },
                None => fallback,
            }
        },
    }
}

/// The template path used: the explicit argument, else the configured one.
pub fn resolve_template(template: Option<String>, config: Option<&Config>) -> (r: Option<String>)
    ensures
        match template {
            Some(p) => r == Some(p),
            None => match config {
                Some(c) => match (c.template, r) {
                    (Some(p), Some(q)) => p@ == q@,
                    (None, None) => true,
                    _ => false,
                },
                None => r is None,
            },
        },
{
    match template {
        Some(p) => Some(p),
        None => match config {
            Some(c) => match &c.template {
                Some(p) => Some(p.clone()),
                None => None,
            },
            None => None,
        },
    }
}

/// The preview port used: the explicit argument, else the configured one,
/// else 3000.
pub fn resolve_preview_port(port: Option<u16>, config: Option<&Config>) -> (r: u16)
    ensures
        r == match port {
            Some(p) => p,
            None => match config {
                Some(c) => match c.preview {
                    Some(pc) => match pc.port {
                        Some(p) => p,
                        None => 3000u16,
                    },
                    None => 3000u16,
                },
                None => 3000u16,
            },
        },
{
    match port {
        Some(p) => p,
        None => match config {
            Some(c) => match &c.preview {
                Some(pc) => match pc.port {
                    Some(p) => p,
                    None => 3000,
                },
                None => 3000,
            },
            None => 3000,
        },
    }
}

/// Whether a browser is opened: the explicit flag, else the configured
/// one, else not.
pub fn resolve_preview_open(open: bool, config: Option<&Config>) -> (r: bool)
    ensures
        r == (open || match config {
            Some(c) => match c.preview {
                Some(pc) => match pc.open {
                    Some(o) => o,
                    None => false,
                },
                None => false,
            },
            None => false,
        }),
{
    if open {
        true
    } else {
        match config {
            Some(c) => match &c.preview {
                Some(pc) => match pc.open {
                    Some(o) => o,
                    None => false,
                },
                None => false,
            },
            None => false,
        }
    }
}

} // verus!
