use vstd::prelude::*;

verus! {

/// The abstract content of a `CommandInfo`.
pub struct CommandInfoView {
    pub id: Seq<char>,
    pub description: Seq<char>,
    pub command: Seq<char>,
    pub args: Seq<Seq<char>>,
}

/// A shell command that the server offers, under an identifier.
pub struct CommandInfo {
    id: String,
    description: String,
    command: String,
    args: Vec<String>,
}

impl View for CommandInfo {
    type V = CommandInfoView;

    closed spec fn view(&self) -> CommandInfoView {
        CommandInfoView {
            id: self.id@,
            description: self.description@,
            command: self.command@,
            args: self.args.deep_view(),
        }
    }
}

impl DeepView for CommandInfo {
    type V = CommandInfoView;

    open spec fn deep_view(&self) -> CommandInfoView {
        self@
    }
}

/// Copies a vector of strings; the copy has the same texts.
fn copy_strings(v: &Vec<String>) -> (r: Vec<String>)
    ensures
        r.deep_view() == v.deep_view(),
{
    let mut r: Vec<String> = Vec::new();
    let mut i: usize = 0;
    while i < v.len()
        invariant
            i <= v.len(),
            r.len() == i,
            forall|j: int| 0 <= j < i ==> #[trigger] r[j]@ == v[j]@,
        decreases v.len() - i,
    {
        r.push(v[i].clone());
        i = i + 1;
    }
    assert(r.deep_view() =~= v.deep_view());
    r
}

impl Clone for CommandInfo {
    fn clone(&self) -> (r: Self)
        ensures
            r@ == self@,
    {
        CommandInfo {
            id: self.id.clone(),
            description: self.description.clone(),
            command: self.command.clone(),
            args: copy_strings(&self.args),
        }
    }
}

impl CommandInfo {
    /// Builds the description of a command.
    pub fn new(id: String, description: String, command: String, args: Vec<String>) -> (r: Self)
        ensures
            r@ == (CommandInfoView {
                id: id@,
                description: description@,
                command: command@,
                args: args.deep_view(),
            }),
    {
        CommandInfo { id, description, command, args }
    }

    /// The identifier under which the command is served.
    pub fn id(&self) -> (r: &String)
        ensures
            r@ == self@.id,
    {
        &self.id
    }

    /// The human readable description of the command.
    pub fn description(&self) -> (r: &String)
        ensures
            r@ == self@.description,
    {
        &self.description
    }

    /// The program that is run.
    pub fn command(&self) -> (r: &String)
        ensures
            r@ == self@.command,
    {
        &self.command
    }

    /// The arguments handed to the program, in order.
    pub fn args(&self) -> (r: &Vec<String>)
        ensures
            r.deep_view() == self@.args,
    {
        &self.args
    }
}

/// The abstract content of a `ProxyInfo`.
pub struct ProxyInfoView {
    pub id: Seq<char>,
    pub description: Seq<char>,
    pub url: Seq<char>,
}

/// An HTTP target that the server fetches on request, under an identifier.
pub struct ProxyInfo {
    id: String,
    description: String,
    url: String,
}

impl View for ProxyInfo {
    type V = ProxyInfoView;

    closed spec fn view(&self) -> ProxyInfoView {
        ProxyInfoView { id: self.id@, description: self.description@, url: self.url@ }
    }
}

impl DeepView for ProxyInfo {
    type V = ProxyInfoView;

    open spec fn deep_view(&self) -> ProxyInfoView {
        self@
    }
}

impl Clone for ProxyInfo {
    fn clone(&self) -> (r: Self)
        ensures
            r@ == self@,
    {
        ProxyInfo {
            id: self.id.clone(),
            description: self.description.clone(),
            url: self.url.clone(),
        }
    }
}

impl ProxyInfo {
    /// Builds the description of a proxy target.
    pub fn new(id: String, description: String, url: String) -> (r: Self)
        ensures
            r@ == (ProxyInfoView { id: id@, description: description@, url: url@ }),
    {
        ProxyInfo { id, description, url }
    }

    /// The identifier under which the target is served.
    pub fn id(&self) -> (r: &String)
        ensures
            r@ == self@.id,
    {
        &self.id
    }

    /// The human readable description of the target.
    pub fn description(&self) -> (r: &String)
        ensures
            r@ == self@.description,
    {
        &self.description
    }

    /// The URL that is fetched.
    pub fn url(&self) -> (r: &String)
        ensures
            r@ == self@.url,
    {
        &self.url
    }
}

/// Where the server listens.
pub struct ServerInfo {
    listen_address: String,
}

impl View for ServerInfo {
    type V = Seq<char>;

    closed spec fn view(&self) -> Seq<char> {
        self.listen_address@
    }
}

impl Clone for ServerInfo {
    fn clone(&self) -> (r: Self)
        ensures
            r@ == self@,
    {
        ServerInfo { listen_address: self.listen_address.clone() }
    }
}

impl ServerInfo {
    /// Builds the server settings from the listen address.
    pub fn new(listen_address: String) -> (r: Self)
        ensures
            r@ == listen_address@,
    {
        ServerInfo { listen_address }
    }

    /// The socket address, as text, that the server listens on.
    pub fn listen_address(&self) -> (r: &String)
        ensures
            r@ == self@,
    {
        &self.listen_address
    }
}

/// What the main page shows about itself.
pub struct MainPageInfo {
    title: String,
}

impl View for MainPageInfo {
    type V = Seq<char>;

    closed spec fn view(&self) -> Seq<char> {
        self.title@
    }
}

impl Clone for MainPageInfo {
    fn clone(&self) -> (r: Self)
        ensures
            r@ == self@,
    {
        MainPageInfo { title: self.title.clone() }
    }
}

impl MainPageInfo {
    /// Builds the main page settings from its title.
    pub fn new(title: String) -> (r: Self)
        ensures
            r@ == title@,
    {
        MainPageInfo { title }
    }

    /// The title of the main page.
    pub fn title(&self) -> (r: &String)
        ensures
            r@ == self@,
    {
        &self.title
    }
}

/// The abstract content of a `Configuration`.
pub struct ConfigurationView {
    pub listen_address: Seq<char>,
    pub title: Seq<char>,
    pub commands: Seq<CommandInfoView>,
    pub proxies: Seq<ProxyInfoView>,
}

/// The whole configuration of the server.
pub struct Configuration {
    server_info: ServerInfo,
    main_page_info: MainPageInfo,
    commands: Vec<CommandInfo>,
    proxies: Vec<ProxyInfo>,
}

impl View for Configuration {
    type V = ConfigurationView;

    closed spec fn view(&self) -> ConfigurationView {
        ConfigurationView {
            listen_address: self.server_info@,
            title: self.main_page_info@,
            commands: self.commands.deep_view(),
            proxies: self.proxies.deep_view(),
        }
    }
}

impl Configuration {
    /// Assembles a configuration from its parts.
    pub fn new(
        server_info: ServerInfo,
        main_page_info: MainPageInfo,
        commands: Vec<CommandInfo>,
        proxies: Vec<ProxyInfo>,
    ) -> (r: Self)
        ensures
            r@ == (ConfigurationView {
                listen_address: server_info@,
                title: main_page_info@,
                commands: commands.deep_view(),
                proxies: proxies.deep_view(),
            }),
    {
        Configuration { server_info, main_page_info, commands, proxies }
    }

    /// The listening settings.
    pub fn server_info(&self) -> (r: &ServerInfo)
        ensures
            r@ == self@.listen_address,
    {
        &self.server_info
    }

    /// The main page settings.
    pub fn main_page_info(&self) -> (r: &MainPageInfo)
        ensures
            r@ == self@.title,
    {
        &self.main_page_info
    }

    /// The configured commands, in the order of the configuration.
    pub fn commands(&self) -> (r: &Vec<CommandInfo>)
        ensures
            r.deep_view() == self@.commands,
    {
        &self.commands
    }

    /// The configured proxy targets, in the order of the configuration.
    pub fn proxies(&self) -> (r: &Vec<ProxyInfo>)
        ensures
            r.deep_view() == self@.proxies,
    {
        &self.proxies
    }
}

} // verus!
