//! The tokens that the lexer finds in a script.
use crate::text::string_views;
use vstd::prelude::*;

verus! {

/// One token of a script.
#[derive(Debug, PartialEq)]
pub struct Token {
    pub kind: TokenKind,
}

/// A named group of commands with its formal parameters.
#[derive(Debug, PartialEq)]
pub struct GroupDefinition {
    pub name: String,
    pub args: Vec<String>,
    pub commands: Vec<Token>,
}

/// What a token is, with what it carries.
#[derive(Debug, PartialEq)]
pub enum TokenKind {
    /// No token at all.
    Nothing,
    /// A bare string.
    String(String),
    /// `$name = value`: the name and the value as written.
    Variable(String, String),
    /// `$name ?= value`: takes effect only where the name has no value yet.
    VariableIfNotSet(String, String),
    /// A command line from its `:` on, with no variable replaced yet.
    Command(String),
    /// A phase label from its `@` on.
    Phase(String),
    /// `!name arg...`: the group's name and the arguments as written.
    ExecuteGroup(String, Vec<String>),
    /// The `]` that closes a group's body.
    EndGroup,
    /// `[name $param... ]` with the tokens of its body.
    GroupDefinition(GroupDefinition),
    /// The end of the script.
    EndOfText,
}

/// A token as contracts speak of it: texts in place of strings.
pub ghost enum TokenModel {
    Nothing,
    String(Seq<char>),
    Variable(Seq<char>, Seq<char>),
    VariableIfNotSet(Seq<char>, Seq<char>),
    Command(Seq<char>),
    Phase(Seq<char>),
    ExecuteGroup(Seq<char>, Seq<Seq<char>>),
    EndGroup,
    GroupDefinition(GroupModel),
    EndOfText,
}

/// A group definition as contracts speak of it.
pub ghost struct GroupModel {
    pub name: Seq<char>,
    pub args: Seq<Seq<char>>,
    pub commands: Seq<TokenModel>,
}

/// The model of a token.
pub open spec fn token_model(t: Token) -> TokenModel
    decreases t,
{
    match t.kind {
        TokenKind::Nothing => TokenModel::Nothing,
        TokenKind::String(s) => TokenModel::String(s@),
        TokenKind::Variable(name, value) => TokenModel::Variable(name@, value@),
        TokenKind::VariableIfNotSet(name, value) => TokenModel::VariableIfNotSet(name@, value@),
        TokenKind::Command(s) => TokenModel::Command(s@),
        TokenKind::Phase(s) => TokenModel::Phase(s@),
        TokenKind::ExecuteGroup(name, args) => TokenModel::ExecuteGroup(
            name@,
            string_views(args@),
        ),
        TokenKind::EndGroup => TokenModel::EndGroup,
        TokenKind::GroupDefinition(g) => TokenModel::GroupDefinition(
            GroupModel {
                name: g.name@,
                args: string_views(g.args@),
                commands: Seq::new(
                    g.commands.len() as nat,
                    |i: int|
                        if 0 <= i < g.commands.len() {
                            token_model(g.commands[i])
                        } else {
                            TokenModel::Nothing
                        },
                ),
            },
        ),
        TokenKind::EndOfText => TokenModel::EndOfText,
    }
}

/// The models of a list of tokens.
pub open spec fn token_models(tokens: Seq<Token>) -> Seq<TokenModel> {
    Seq::new(tokens.len(), |i: int| token_model(tokens[i]))
}

impl View for Token {
    type V = TokenModel;

    open spec fn view(&self) -> TokenModel {
        token_model(*self)
    }
}

impl View for GroupDefinition {
    type V = GroupModel;

    open spec fn view(&self) -> GroupModel {
        GroupModel {
            name: self.name@,
            args: string_views(self.args@),
            commands: token_models(self.commands@),
        }
    }
}

/// The model of a group definition token is the model of its group.
pub proof fn lemma_group_token(g: GroupDefinition)
    ensures
        token_model(Token { kind: TokenKind::GroupDefinition(g) }) == TokenModel::GroupDefinition(
            g@,
        ),
{
    let t = token_model(Token { kind: TokenKind::GroupDefinition(g) });
    assert(t->GroupDefinition_0.commands =~= token_models(g.commands@));
}

impl Token {
    /// A token of the given kind.
    pub fn new(kind: TokenKind) -> (token: Token)
        ensures
            token.kind == kind,
    {
        Token { kind }
    }

    /// The token that stands for no token.
    pub fn none() -> (token: Token)
        ensures
            token.kind == TokenKind::Nothing,
            token@ == TokenModel::Nothing,
    {
        Token::new(TokenKind::Nothing)
    }

    /// The token that ends a script.
    pub fn end() -> (token: Token)
        ensures
            token.kind == TokenKind::EndOfText,
            token@ == TokenModel::EndOfText,
    {
        Token::new(TokenKind::EndOfText)
    }
}

/// A copy of a list of strings.
pub fn clone_strings(strings: &Vec<String>) -> (copy: Vec<String>)
    ensures
        string_views(copy@) == string_views(strings@),
{
    let mut copy: Vec<String> = Vec::new();
    let mut i: usize = 0;
    while i < strings.len()
        invariant
            i <= strings.len(),
            copy.len() == i,
            forall|k: int| 0 <= k < i ==> (#[trigger] copy@[k])@ == strings@[k]@,
        decreases strings.len() - i,
    {
        copy.push(strings[i].clone());
        i += 1;
    }
    assert(string_views(copy@) =~= string_views(strings@));
    copy
}

/// A copy of a token, with everything it carries.
pub fn clone_token(token: &Token) -> (copy: Token)
    ensures
        copy@ == token@,
    decreases token, 1nat,
{
    Token { kind: clone_kind(&token.kind, Ghost(*token)) }
}

/// A copy of the kind of `token`, with everything it carries.
#[verifier::loop_isolation(false)]
fn clone_kind(kind: &TokenKind, Ghost(token): Ghost<Token>) -> (copy: TokenKind)
    requires
        token.kind == *kind,
    ensures
        token_model(Token { kind: copy }) == token@,
    decreases token, 0nat,
{
    match kind {
        TokenKind::Nothing => TokenKind::Nothing,
        TokenKind::String(s) => TokenKind::String(s.clone()),
        TokenKind::Variable(name, value) => TokenKind::Variable(name.clone(), value.clone()),
        TokenKind::VariableIfNotSet(name, value) => TokenKind::VariableIfNotSet(
            name.clone(),
            value.clone(),
        ),
        TokenKind::Command(s) => TokenKind::Command(s.clone()),
        TokenKind::Phase(s) => TokenKind::Phase(s.clone()),
        TokenKind::ExecuteGroup(name, args) => TokenKind::ExecuteGroup(
            name.clone(),
            clone_strings(args),
        ),
        TokenKind::EndGroup => TokenKind::EndGroup,
        TokenKind::GroupDefinition(g) => {
            let mut commands: Vec<Token> = Vec::new();
            let mut i: usize = 0;
            while i < g.commands.len()
                invariant
                    i <= g.commands.len(),
                    commands.len() == i,
                    forall|k: int| 0 <= k < i ==> (#[trigger] commands@[k])@ == g.commands@[k]@,
                decreases g.commands.len() - i,
            {
                commands.push(clone_token(&g.commands[i]));
                i += 1;
            }
            let copy = GroupDefinition {
                name: g.name.clone(),
                args: clone_strings(&g.args),
                commands,
            };
            proof {
                assert(token_models(copy.commands@) =~= token_models(g.commands@));
                lemma_group_token(copy);
                lemma_group_token(*g);
            }
            TokenKind::GroupDefinition(copy)
        },
        TokenKind::EndOfText => TokenKind::EndOfText,
    }
}

/// A copy of a group definition.
pub fn clone_group(group: &GroupDefinition) -> (copy: GroupDefinition)
    ensures
        copy@ == group@,
{
    let mut commands: Vec<Token> = Vec::new();
    let mut i: usize = 0;
    while i < group.commands.len()
        invariant
            i <= group.commands.len(),
            commands.len() == i,
            forall|k: int| 0 <= k < i ==> (#[trigger] commands@[k])@ == group.commands@[k]@,
        decreases group.commands.len() - i,
    {
        commands.push(clone_token(&group.commands[i]));
        i += 1;
    }
    assert(token_models(commands@) =~= token_models(group.commands@));
    GroupDefinition { name: group.name.clone(), args: clone_strings(&group.args), commands }
}

impl Clone for Token {
    fn clone(&self) -> (copy: Self)
        ensures
            copy@ == self@,
    {
        clone_token(self)
    }
}

impl Clone for TokenKind {
    fn clone(&self) -> (copy: Self)
        ensures
            token_model(Token { kind: copy }) == token_model(Token { kind: *self }),
    {
        clone_kind(self, Ghost(Token { kind: *self }))
    }
}

impl Clone for GroupDefinition {
    fn clone(&self) -> (copy: Self)
        ensures
            copy@ == self@,
    {
        clone_group(self)
    }
}

} // verus!
