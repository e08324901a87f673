//! AgentProgram — the three-layer description of what an agent is.

use vstd::prelude::*;

verus! {

/// The reasoning substrate (model).
#[derive(Debug)]
pub struct ModelDescriptor {
    /// Provider (e.g., "openai", "anthropic").
    pub provider: String,
    /// Model name.
    pub model_name: String,
    /// Configuration as a JSON value.
    pub config: serde_json::Value,
}

impl ModelDescriptor {
    /// A descriptor with an empty JSON object as configuration.
    pub fn new(provider: &str, model_name: &str) -> (m: Self)
        ensures
            m.provider@ == provider@,
            m.model_name@ == model_name@,
    {
        ModelDescriptor {
            provider: String::from_str(provider),
            model_name: String::from_str(model_name),
            config: crate::json::empty_json_object(),
        }
    }
}

impl Clone for ModelDescriptor {
    fn clone(&self) -> (r: Self)
        ensures
            r == *self,
    {
        ModelDescriptor {
            provider: self.provider.clone(),
            model_name: self.model_name.clone(),
            config: self.config.clone(),
        }
    }
}

/// The instructions that shape behavior.
#[derive(Debug)]
pub struct PromptDescriptor {
    /// System prompt defining persona and role.
    pub system_prompt: String,
    /// Optional persona summary.
    pub persona: Option<String>,
    /// Behavioral rules and constraints.
    pub rules: Vec<String>,
}

impl PromptDescriptor {
    pub fn new(system_prompt: &str) -> (p: Self)
        ensures
            p.system_prompt@ == system_prompt@,
            p.persona is None,
            p.rules@.len() == 0,
    {
        PromptDescriptor { system_prompt: String::from_str(system_prompt), persona: None, rules: Vec::new() }
    }

    pub fn with_persona(self, persona: &str) -> (p: Self)
        ensures
            p.system_prompt == self.system_prompt,
            p.persona matches Some(s) && s@ == persona@,
            p.rules == self.rules,
    {
        let mut p = self;
        p.persona = Some(String::from_str(persona));
        p
    }

    pub fn with_rule(self, rule: &str) -> (p: Self)
        ensures
            p.system_prompt == self.system_prompt,
            p.persona == self.persona,
            p.rules@.len() == self.rules@.len() + 1,
            p.rules@.drop_last() == self.rules@,
            p.rules@.last()@ == rule@,
    {
        let mut p = self;
        p.rules.push(String::from_str(rule));
        proof {
            assert(p.rules@.drop_last() =~= self.rules@);
        }
        p
    }
}

impl Clone for PromptDescriptor {
    fn clone(&self) -> (r: Self)
        ensures
            r.system_prompt == self.system_prompt,
            r.persona == self.persona,
            r.rules@ == self.rules@,
    {
        PromptDescriptor {
            system_prompt: self.system_prompt.clone(),
            persona: match &self.persona {
                Some(s) => Some(s.clone()),
                None => None,
            },
            rules: crate::clone_strings(&self.rules),
        }
    }
}

/// Single tool descriptor.
#[derive(Debug)]
pub struct ToolDescriptor {
    /// Tool name (for invocation).
    pub name: String,
    /// Human-readable description.
    pub description: String,
    /// JSON schema for arguments.
    pub schema: serde_json::Value,
}

impl ToolDescriptor {
    pub fn new(name: &str, description: &str, schema: serde_json::Value) -> (t: Self)
        ensures
            t.name@ == name@,
            t.description@ == description@,
            t.schema == schema,
    {
        ToolDescriptor { name: String::from_str(name), description: String::from_str(description), schema }
    }
}

impl Clone for ToolDescriptor {
    fn clone(&self) -> (r: Self)
        ensures
            r == *self,
    {
        ToolDescriptor { name: self.name.clone(), description: self.description.clone(), schema: self.schema.clone() }
    }
}

/// Tools the agent can invoke.
#[derive(Debug)]
pub struct ToolSet {
    pub tools: Vec<ToolDescriptor>,
}

impl ToolSet {
    pub fn new(tools: Vec<ToolDescriptor>) -> (s: Self)
        ensures
            s.tools == tools,
    {
        ToolSet { tools }
    }

    /// The empty tool set.
    pub fn default() -> (s: Self)
        ensures
            s.tools@.len() == 0,
    {
        ToolSet { tools: Vec::new() }
    }

    pub fn add_tool(self, tool: ToolDescriptor) -> (s: Self)
        ensures
            s.tools@ == self.tools@.push(tool),
    {
        let mut s = self;
        s.tools.push(tool);
        s
    }
}

/// The three-layer program describing an agent.
#[derive(Debug)]
pub struct AgentProgram {
    /// Reasoning substrate.
    pub model: ModelDescriptor,
    /// Behavior-shaping instructions.
    pub prompt: PromptDescriptor,
    /// Available tools.
    pub tools: ToolSet,
}

impl AgentProgram {
    pub fn new(model: ModelDescriptor, prompt: PromptDescriptor) -> (p: Self)
        ensures
            p.model == model,
            p.prompt == prompt,
            p.tools.tools@.len() == 0,
    {
        AgentProgram { model, prompt, tools: ToolSet::default() }
    }

    pub fn with_tools(self, tools: ToolSet) -> (p: Self)
        ensures
            p.model == self.model,
            p.prompt == self.prompt,
            p.tools == tools,
    {
        let mut p = self;
        p.tools = tools;
        p
    }

    pub fn add_tool(&mut self, tool: ToolDescriptor)
        ensures
            final(self).model == old(self).model,
            final(self).prompt == old(self).prompt,
            final(self).tools.tools@ == old(self).tools.tools@.push(tool),
    {
        self.tools.tools.push(tool);
    }
}

} // verus!
