pub mod properties_source;

use crate::text::{strip_quotes, stripped};

use vstd::prelude::*;

verus! {

/// The settings from which the process's properties are loaded: an optional
/// file, and the namespace, class and app that qualify property names.
pub struct PropertiesBuilder {
    pub m_file_path: Option<String>,
    pub m_namespace: String,
    pub m_class: String,
    pub m_app: String,
}

impl PropertiesBuilder {
    pub fn new() -> (r: PropertiesBuilder)
        ensures
            r.m_file_path is None,
            r.m_namespace@ == "namespace"@,
            r.m_class@ == "class"@,
            r.m_app@ == "app"@,
    {
        PropertiesBuilder {
            m_file_path: None,
            m_namespace: "namespace".to_string(),
            m_class: "class".to_string(),
            m_app: "app".to_string(),
        }
    }

    pub fn with_file(self, file_path: &str) -> (r: PropertiesBuilder)
        ensures
            r.m_file_path is Some && r.m_file_path->Some_0@ == file_path@,
            r.m_namespace == self.m_namespace,
            r.m_class == self.m_class,
            r.m_app == self.m_app,
    {
        PropertiesBuilder { m_file_path: Some(file_path.to_string()), ..self }
    }

    pub fn with_namespace(self, namespace: String) -> (r: PropertiesBuilder)
        ensures
            r.m_namespace == namespace,
            r.m_file_path == self.m_file_path,
            r.m_class == self.m_class,
            r.m_app == self.m_app,
    {
        PropertiesBuilder { m_namespace: namespace, ..self }
    }

    pub fn with_class(self, cls: String) -> (r: PropertiesBuilder)
        ensures
            r.m_class == cls,
            r.m_file_path == self.m_file_path,
            r.m_namespace == self.m_namespace,
            r.m_app == self.m_app,
    {
        PropertiesBuilder { m_class: cls, ..self }
    }

    pub fn with_app(self, app: String) -> (r: PropertiesBuilder)
        ensures
            r.m_app == app,
            r.m_file_path == self.m_file_path,
            r.m_namespace == self.m_namespace,
            r.m_class == self.m_class,
    {
        PropertiesBuilder { m_app: app, ..self }
    }

    /// The names under which the property `prop` is looked up, the most
    /// qualified first: `ns.class.app.prop`, `ns.class.prop`, `ns.prop`, `prop`.
    pub fn property_keys(&self, prop: &str) -> (r: Vec<String>)
        ensures
            r@.len() == 4,
            r@[0]@ == self.m_namespace@ + "."@ + self.m_class@ + "."@ + self.m_app@ + "."@ + prop@,
            r@[1]@ == self.m_namespace@ + "."@ + self.m_class@ + "."@ + prop@,
            r@[2]@ == self.m_namespace@ + "."@ + prop@,
            r@[3]@ == prop@,
    {
        let mut a = self.m_namespace.clone();
        a.append(".");
        let b0 = a.clone();
        a.append(self.m_class.as_str());
        a.append(".");
        let c0 = a.clone();
        a.append(self.m_app.as_str());
        a.append(".");
        a.append(prop);
        let mut b = c0;
        b.append(prop);
        let mut c = b0;
        c.append(prop);
        let mut r: Vec<String> = Vec::new();
        r.push(a);
        r.push(b);
        r.push(c);
        r.push(prop.to_string());
        r
    }
}

/// The properties file kept in the directory `dir`.
pub fn config_file_in(dir: &str) -> (r: String)
    ensures
        r@ == if dir@.len() > 0 && dir@.last() == '/' {
            dir@ + "extrans.properties"@
        } else {
            dir@ + "/extrans.properties"@
        },
{
    let mut r = dir.to_string();
    let n = dir.unicode_len();
    if n > 0 && dir.get_char(n - 1) == '/' {
        r.append("extrans.properties");
    } else {
        r.append("/extrans.properties");
    }
    r
}

/// `s` without the quotation marks at its start and then at its end.
pub open spec fn unquoted(s: Seq<char>) -> Seq<char> {
    stripped(s, |c: char| c == '"' || c == '\'')
}

/// `value` without the quotation marks around it.
pub fn trim_quotes(value: &str) -> (r: String)
    ensures
        r@ == unquoted(value@),
{
    strip_quotes(value).to_string()
}

} // verus!
