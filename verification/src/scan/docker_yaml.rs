//! What Dockerfiles, compose files and pnpm workspaces say.
use super::yaml;
use super::yaml::Yaml;
use super::yaml::YamlView;
use crate::text;
use vstd::prelude::*;

verus! {

/// A service of a compose file.
#[derive(Debug, Clone, Default)]
pub struct DockerComposeService {
    pub name: String,
    pub image: Option<String>,
    pub build_context: Option<String>,
}

/// A `DockerComposeService` by its characters.
pub struct DockerComposeServiceView {
    pub name: Seq<char>,
    pub image: Option<Seq<char>>,
    pub build_context: Option<Seq<char>>,
}

impl View for DockerComposeService {
    type V = DockerComposeServiceView;

    open spec fn view(&self) -> DockerComposeServiceView {
        DockerComposeServiceView {
            name: self.name@,
            image: text::opt_view(self.image),
            build_context: text::opt_view(self.build_context),
        }
    }
}

/// What a compose file says.
#[derive(Debug, Clone, Default)]
pub struct DockerComposeData {
    pub services: Vec<DockerComposeService>,
}

impl View for DockerComposeData {
    type V = Seq<DockerComposeServiceView>;

    open spec fn view(&self) -> Seq<DockerComposeServiceView> {
        self.services@.map_values(|s: DockerComposeService| s@)
    }
}

/// Where a service is built: its `build` where that is a text, else the
/// `context` of its `build`.
pub open spec fn build_context_of(definition: YamlView) -> Option<Seq<char>> {
    match definition.at("build"@) {
        Some(build) => match build.text() {
            Some(context) => Some(context),
            None => yaml::text_at(build, "context"@),
        },
        None => None,
    }
}

/// The services among the entries of a mapping: those whose key is a text.
pub open spec fn services_among(entries: Seq<(YamlView, YamlView)>) -> Seq<DockerComposeServiceView>
    decreases entries.len(),
{
    if entries.len() == 0 {
        Seq::empty()
    } else {
        let before = services_among(entries.drop_last());
        let (key, definition) = entries.last();
        match key.text() {
            Some(name) => before.push(
                DockerComposeServiceView {
                    name,
                    image: yaml::text_at(definition, "image"@),
                    build_context: build_context_of(definition),
                },
            ),
            None => before,
        }
    }
}

/// The services of the document of a compose file, if it has a mapping of
/// them.
pub open spec fn compose_services(document: YamlView) -> Option<Seq<DockerComposeServiceView>> {
    match document.at("services"@) {
        Some(services) => match services.untagged() {
            YamlView::Mapping(entries) => Some(services_among(entries)),
            _ => None,
        },
        None => None,
    }
}

/// Compose data that may be absent, by its characters.
pub open spec fn opt_compose(data: Option<DockerComposeData>) -> Option<
    Seq<DockerComposeServiceView>,
> {
    match data {
        Some(d) => Some(d@),
        None => None,
    }
}

fn owned(s: Option<&str>) -> (r: Option<String>)
    ensures
        text::opt_view(r) == text::opt_str_view(s),
{
    match s {
        Some(s) => Some(s.to_string()),
        None => None,
    }
}

fn read_service(name: &str, definition: &Yaml) -> (service: DockerComposeService)
    ensures
        service@ == (DockerComposeServiceView {
            name: name@,
            image: yaml::text_at(definition@, "image"@),
            build_context: build_context_of(definition@),
        }),
{
    let image = owned(definition.get_str("image"));
    let build_context: Option<String> = match definition.get("build") {
        Some(build) => match build.as_str() {
            Some(context) => Some(context.to_string()),
            None => owned(build.get_str("context")),
        },
        None => None,
    };
    DockerComposeService { name: name.to_string(), image, build_context }
}

/// The services of the document of a compose file.
pub fn read_compose(document: &Yaml) -> (data: Option<DockerComposeData>)
    ensures
        opt_compose(data) == compose_services(document@),
{
    let services = match document.get("services") {
        Some(services) => services,
        None => {
            return None;
        },
    };
    match services.untag() {
        Yaml::Mapping(entries) => {
            let ghost all = yaml::entries_view(entries@);
            let mut data = DockerComposeData { services: Vec::new() };
            proof {
                yaml::lemma_entries_view(entries@);
                assert(data@ =~= Seq::empty());
                assert(all.take(0) =~= Seq::empty());
            }
            for i in 0..entries.len()
                invariant
                    all.len() == entries@.len(),
                    forall|k: int|
                        0 <= k < entries@.len() ==> #[trigger] all[k] == (
                            entries@[k].0@,
                            entries@[k].1@,
                        ),
                    data@ == services_among(all.take(i as int)),
            {
                assert(all.take(i + 1).drop_last() =~= all.take(i as int));
                assert(all[i as int] == (entries@[i as int].0@, entries@[i as int].1@));
                if let Some(name) = entries[i].0.as_str() {
                    let ghost before = data@;
                    let service = read_service(name, &entries[i].1);
                    let ghost shown = service@;
                    data.services.push(service);
                    assert(data@ =~= before.push(shown));
                }
            }
            assert(all.take(entries@.len() as int) =~= all);
            Some(data)
        },
        _ => None,
    }
}

/// What the text of a compose file says.
pub open spec fn docker_compose(text: Seq<char>) -> Option<Seq<DockerComposeServiceView>> {
    match yaml::yaml_document(text) {
        Some(document) => compose_services(document),
        None => None,
    }
}

/// What the text of a compose file says; nothing if it is no YAML or has no
/// mapping of services.
pub fn parse_docker_compose(text: &str) -> (data: Option<DockerComposeData>)
    ensures
        opt_compose(data) == docker_compose(text@),
{
    match yaml::parse_yaml(text) {
        Some(document) => read_compose(&document),
        None => None,
    }
}

/// What a Dockerfile says.
#[derive(Debug, Clone, Default)]
pub struct DockerfileData {
    pub base_image: Option<String>,
    pub exposed_ports: Vec<String>,
}

/// A `DockerfileData` by its characters.
#[verifier::ext_equal]
pub struct DockerfileView {
    pub base_image: Option<Seq<char>>,
    pub exposed_ports: Seq<Seq<char>>,
}

impl View for DockerfileData {
    type V = DockerfileView;

    open spec fn view(&self) -> DockerfileView {
        DockerfileView {
            base_image: text::opt_view(self.base_image),
            exposed_ports: text::views(self.exposed_ports@),
        }
    }
}

/// What a Dockerfile says after one more line. `FROM` names the image, and
/// what follows the name is no part of it; a later `FROM` replaces an earlier
/// one. `EXPOSE` adds ports.
pub open spec fn after_line(data: DockerfileView, line: Seq<char>) -> DockerfileView {
    match text::without_prefix(text::trimmed(line), "FROM "@) {
        Some(rest) => DockerfileView {
            base_image: if text::words(rest).len() > 0 {
                Some(text::words(rest)[0])
            } else {
                None
            },
            exposed_ports: data.exposed_ports,
        },
        None => match text::without_prefix(text::trimmed(line), "EXPOSE "@) {
            Some(rest) => DockerfileView {
                base_image: data.base_image,
                exposed_ports: data.exposed_ports + text::words(rest),
            },
            None => data,
        },
    }
}

/// What a Dockerfile of these lines says.
pub open spec fn after_lines(lines: Seq<Seq<char>>) -> DockerfileView
    decreases lines.len(),
{
    if lines.len() == 0 {
        DockerfileView { base_image: None, exposed_ports: Seq::empty() }
    } else {
        after_line(after_lines(lines.drop_last()), lines.last())
    }
}

/// What the text of a Dockerfile says.
pub open spec fn dockerfile(text: Seq<char>) -> DockerfileView {
    after_lines(text::split(text, '\n'))
}

/// What the text of a Dockerfile says.
pub fn parse_dockerfile(text: &str) -> (data: DockerfileData)
    ensures
        data@ == dockerfile(text@),
{
    let lines = text::split_on(text, '\n');
    let ghost all = text::split(text@, '\n');
    let mut base_image: Option<String> = None;
    let mut exposed_ports: Vec<String> = Vec::new();
    assert(text::views(exposed_ports@) =~= Seq::empty());
    for i in 0..lines.len()
        invariant
            all == text::views(lines@),
            after_lines(all.take(i as int)) == (DockerfileView {
                base_image: text::opt_view(base_image),
                exposed_ports: text::views(exposed_ports@),
            }),
    {
        let ghost ports = text::views(exposed_ports@);
        assert(all.take(i + 1).drop_last() =~= all.take(i as int));
        assert(all.take(i + 1).last() == lines@[i as int]@);
        let line = text::trim(&lines[i]);
        if let Some(rest) = text::strip_prefix(&line, "FROM ") {
            let words = text::split_whitespace(&rest);
            base_image = if words.len() > 0 {
                assert(text::views(words@)[0] == words@[0]@);
                Some(words[0].clone())
            } else {
                None
            };
        } else if let Some(rest) = text::strip_prefix(&line, "EXPOSE ") {
            let mut words = text::split_whitespace(&rest);
            let ghost added = text::views(words@);
            exposed_ports.append(&mut words);
            assert(text::views(exposed_ports@) =~= ports + added);
        }
    }
    assert(all.take(lines@.len() as int) =~= all);
    DockerfileData { base_image, exposed_ports }
}

/// The texts among the items of a sequence.
pub open spec fn texts_among(items: Seq<YamlView>) -> Seq<Seq<char>>
    decreases items.len(),
{
    if items.len() == 0 {
        Seq::empty()
    } else {
        let before = texts_among(items.drop_last());
        match items.last().text() {
            Some(s) => before.push(s),
            None => before,
        }
    }
}

/// The packages of the document of a pnpm workspace, if it has a sequence of
/// them.
pub open spec fn workspace_packages(document: YamlView) -> Option<Seq<Seq<char>>> {
    match document.at("packages"@) {
        Some(packages) => match packages.untagged() {
            YamlView::Sequence(items) => Some(texts_among(items)),
            _ => None,
        },
        None => None,
    }
}

/// A list of texts that may be absent, by its characters.
pub open spec fn opt_views(list: Option<Vec<String>>) -> Option<Seq<Seq<char>>> {
    match list {
        Some(l) => Some(text::views(l@)),
        None => None,
    }
}

/// The packages of the document of a pnpm workspace.
pub fn read_workspace_packages(document: &Yaml) -> (packages: Option<Vec<String>>)
    ensures
        opt_views(packages) == workspace_packages(document@),
{
    let declared = match document.get("packages") {
        Some(declared) => declared,
        None => {
            return None;
        },
    };
    match declared.untag() {
        Yaml::Sequence(items) => {
            let ghost all = yaml::items_view(items@);
            let mut packages: Vec<String> = Vec::new();
            proof {
                yaml::lemma_items_view(items@);
                assert(text::views(packages@) =~= Seq::empty());
                assert(all.take(0) =~= Seq::empty());
            }
            for i in 0..items.len()
                invariant
                    all.len() == items@.len(),
                    forall|k: int| 0 <= k < items@.len() ==> #[trigger] all[k] == items@[k]@,
                    text::views(packages@) == texts_among(all.take(i as int)),
            {
                assert(all.take(i + 1).drop_last() =~= all.take(i as int));
                assert(all[i as int] == items@[i as int]@);
                if let Some(s) = items[i].as_str() {
                    let ghost before = text::views(packages@);
                    packages.push(s.to_string());
                    assert(text::views(packages@) =~= before.push(s@));
                }
            }
            assert(all.take(items@.len() as int) =~= all);
            Some(packages)
        },
        _ => None,
    }
}

/// The packages that the text of a pnpm workspace names.
pub open spec fn pnpm_packages(text: Seq<char>) -> Option<Seq<Seq<char>>> {
    match yaml::yaml_document(text) {
        Some(document) => workspace_packages(document),
        None => None,
    }
}

/// The packages that the text of a pnpm workspace names; nothing if it is no
/// YAML or has no sequence of packages.
pub fn parse_pnpm_workspace_packages(text: &str) -> (packages: Option<Vec<String>>)
    ensures
        opt_views(packages) == pnpm_packages(text@),
{
    match yaml::parse_yaml(text) {
        Some(document) => read_workspace_packages(&document),
        None => None,
    }
}

/// The lines of a Dockerfile count one after another.
pub proof fn law_lines_count_in_order(text: Seq<char>, line: Seq<char>)
    requires
        !line.contains('\n'),
    ensures
        dockerfile(text.push('\n') + line) == after_line(dockerfile(text), line),
        dockerfile(line) == after_line(
            DockerfileView { base_image: None, exposed_ports: Seq::empty() },
            line,
        ),
{
    reveal_with_fuel(after_lines, 2);
    text::lemma_split_step(text, line, '\n');
    assert(text::split(text, '\n').push(line).drop_last() =~= text::split(text, '\n'));
    assert(seq![line].drop_last() =~= Seq::empty());
}

/// Whether a text is one word.
pub open spec fn is_word(word: Seq<char>) -> bool {
    word.len() > 0 && forall|i: int| 0 <= i < word.len() ==> !text::is_space(#[trigger] word[i])
}

/// A `FROM` line names the image, whatever follows the name and whatever white
/// space stands around, and leaves the ports as they are; the last such line
/// counts.
pub proof fn law_from_names_the_image(
    data: DockerfileView,
    before: Seq<char>,
    image: Seq<char>,
    rest: Seq<char>,
    after: Seq<char>,
)
    requires
        text::is_blank(before),
        text::is_blank(after),
        is_word(image),
        rest.len() > 0,
        !text::is_space(rest[rest.len() - 1]),
    ensures
        after_line(data, before + ("FROM "@ + image) + after).base_image == Some(image),
        after_line(data, before + ("FROM "@ + image + " "@ + rest) + after).base_image == Some(
            image,
        ),
        after_line(data, before + ("FROM "@ + image) + after).exposed_ports == data.exposed_ports,
{
    let short = "FROM "@ + image;
    let long = "FROM "@ + image + " "@ + rest;
    reveal_strlit("FROM ");
    reveal_strlit(" ");
    text::law_white_space('F');
    assert(short[0] == 'F' && long[0] == 'F');
    assert(!text::is_space(image[image.len() - 1]));
    assert(short[short.len() - 1] == image[image.len() - 1]);
    assert(long[long.len() - 1] == rest[rest.len() - 1]);
    text::law_trimming_takes_off_white_space(before, short, after);
    text::law_trimming_takes_off_white_space(before, long, after);
    text::lemma_prefix_and_rest(short, "FROM "@);
    assert(long =~= "FROM "@ + (image + " "@ + rest));
    text::lemma_prefix_and_rest(long, "FROM "@);
    assert(short.skip("FROM "@.len() as int) =~= image);
    assert(long.skip("FROM "@.len() as int) =~= image.push(' ') + rest);
    text::law_white_space_keeps_words_apart(image, ' ', rest, image);
}

/// An `EXPOSE` line adds the ports that it names, as many as there are and in
/// order, and leaves the image as it is.
pub proof fn law_expose_adds_ports(
    data: DockerfileView,
    before: Seq<char>,
    port: Seq<char>,
    other: Seq<char>,
    after: Seq<char>,
)
    requires
        text::is_blank(before),
        text::is_blank(after),
        is_word(port),
        other.len() > 0,
        !text::is_space(other[other.len() - 1]),
    ensures
        after_line(data, before + ("EXPOSE "@ + port) + after).exposed_ports
            == data.exposed_ports.push(port),
        after_line(data, before + ("EXPOSE "@ + port + " "@ + other) + after).exposed_ports
            == data.exposed_ports.push(port) + text::words(other),
        after_line(data, before + ("EXPOSE "@ + port) + after).base_image == data.base_image,
{
    let short = "EXPOSE "@ + port;
    let long = "EXPOSE "@ + port + " "@ + other;
    reveal_strlit("EXPOSE ");
    reveal_strlit("FROM ");
    reveal_strlit(" ");
    text::law_white_space('E');
    assert(short[0] == 'E' && long[0] == 'E');
    assert(!text::is_space(port[port.len() - 1]));
    assert(short[short.len() - 1] == port[port.len() - 1]);
    assert(long[long.len() - 1] == other[other.len() - 1]);
    text::law_trimming_takes_off_white_space(before, short, after);
    text::law_trimming_takes_off_white_space(before, long, after);
    text::lemma_prefix_and_rest(short, "EXPOSE "@);
    assert(long =~= "EXPOSE "@ + (port + " "@ + other));
    text::lemma_prefix_and_rest(long, "EXPOSE "@);
    if "FROM "@.is_prefix_of(short) {
        assert(short.subrange(0, 5)[0] == "FROM "@[0]);
    }
    if "FROM "@.is_prefix_of(long) {
        assert(long.subrange(0, 5)[0] == "FROM "@[0]);
    }
    assert(short.skip("EXPOSE "@.len() as int) =~= port);
    assert(long.skip("EXPOSE "@.len() as int) =~= port.push(' ') + other);
    text::law_white_space_keeps_words_apart(port, ' ', other, port);
    assert(data.exposed_ports + seq![port] =~= data.exposed_ports.push(port));
    assert(data.exposed_ports + (seq![port] + text::words(other)) =~= data.exposed_ports.push(port)
        + text::words(other));
}

/// Any other line makes no difference.
pub proof fn law_other_lines_make_no_difference(data: DockerfileView, line: Seq<char>)
    requires
        !"FROM "@.is_prefix_of(text::trimmed(line)),
        !"EXPOSE "@.is_prefix_of(text::trimmed(line)),
    ensures
        after_line(data, line) == data,
{
}

/// Each entry of `services` with a text for its key is a service, in order,
/// with its `image` and with where it is built: its `build`, or the `context`
/// of that.
pub proof fn law_services_stand_in_order(
    before: Seq<(YamlView, YamlView)>,
    name: Seq<char>,
    definition: YamlView,
    key: YamlView,
)
    ensures
        services_among(Seq::empty()).len() == 0,
        services_among(before.push((YamlView::Text(name), definition))) == services_among(
            before,
        ).push(
            DockerComposeServiceView {
                name,
                image: yaml::text_at(definition, "image"@),
                build_context: match definition.at("build"@) {
                    Some(build) => if build.text() is Some {
                        build.text()
                    } else {
                        yaml::text_at(build, "context"@)
                    },
                    None => None,
                },
            },
        ),
        key.text() is None ==> services_among(before.push((key, definition))) == services_among(
            before,
        ),
{
    assert(before.push((YamlView::Text(name), definition)).drop_last() =~= before);
    assert(before.push((key, definition)).drop_last() =~= before);
}

/// A compose file has the services of its mapping `services`, and a workspace
/// the packages of its sequence `packages`; without one there are none, and
/// what is no YAML says nothing.
pub proof fn law_documents_are_told_by_their_fields(text: Seq<char>, document: YamlView)
    ensures
        yaml::yaml_document(text) is None ==> docker_compose(text) is None && pnpm_packages(text)
            is None,
        yaml::yaml_document(text) == Some(document) ==> {
            &&& document.at("services"@) is None ==> docker_compose(text) is None
            &&& document.at("services"@) matches Some(found) ==> match found.untagged() {
                YamlView::Mapping(entries) => docker_compose(text) == Some(services_among(entries)),
                _ => docker_compose(text) is None,
            }
            &&& document.at("packages"@) is None ==> pnpm_packages(text) is None
            &&& document.at("packages"@) matches Some(found) ==> match found.untagged() {
                YamlView::Sequence(items) => pnpm_packages(text) == Some(texts_among(items)),
                _ => pnpm_packages(text) is None,
            }
        },
{
}

/// The texts of a sequence are told in order, and nothing else in it is.
pub proof fn law_texts_of_a_sequence(before: Seq<YamlView>, item: YamlView)
    ensures
        texts_among(Seq::empty()).len() == 0,
        item.text() matches Some(s) ==> texts_among(before.push(item)) == texts_among(before).push(
            s,
        ),
        item.text() is None ==> texts_among(before.push(item)) == texts_among(before),
{
    assert(before.push(item).drop_last() =~= before);
}

} // verus!
