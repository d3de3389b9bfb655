//! The configuration of the server.
use vstd::prelude::*;

verus! {

/// The configuration file that is written at the first start.
pub const CONFIG_TEMPLATE: &'static str =
    "# LanShare 配置文件\n# 修改后重启程序生效\n\n# 共享目录（相对路径相对本文件所在目录；也可用绝对路径如 D:\\share）\nshared_dir = \"./shared\"\n\n# LSP 协议端口（lan-share CLI 客户端连接用）\nlsp_port = 9820\n\n# WebDAV / Web 界面端口（0 = 禁用 WebDAV 和网页界面）\nwebdav_port = 8080\n\n# 访问 PIN（简易模式用，Web UI 登录请用账号密码）\npin = \"123456\"\n\n# 设备名（留空 = 使用计算机名）\ndevice_name = \"\"\n\n# 启动后自动打开浏览器\nauto_browser = true\n";

/// The configuration of the server.
#[derive(Debug, Clone)]
pub struct Config {
    pub shared_dir: String,
    pub lsp_port: u16,
    /// 0 switches the web server off.
    pub webdav_port: u16,
    pub pin: String,
    /// Empty for the name of the computer.
    pub device_name: String,
    pub auto_browser: bool,
}

pub fn default_shared_dir() -> (r: String)
    ensures
        r@ == "./shared"@,
{
    "./shared".to_owned()
}

pub fn default_lsp_port() -> (r: u16)
    ensures
        r == 9820,
{
    9820
}

pub fn default_webdav_port() -> (r: u16)
    ensures
        r == 8080,
{
    8080
}

pub fn default_pin() -> (r: String)
    ensures
        r@ == "123456"@,
{
    "123456".to_owned()
}

pub fn default_true() -> (r: bool)
    ensures
        r,
{
    true
}

impl Default for Config {
    fn default() -> (r: Self)
        ensures
            r.shared_dir@ == "./shared"@,
            r.lsp_port == 9820,
            r.webdav_port == 8080,
            r.pin@ == "123456"@,
            r.device_name@ == Seq::<char>::empty(),
            r.auto_browser,
    {
        let r = Config {
            shared_dir: default_shared_dir(),
            lsp_port: default_lsp_port(),
            webdav_port: default_webdav_port(),
            pin: default_pin(),
            device_name: String::new(),
            auto_browser: default_true(),
        };
        proof {
            assert(r.device_name@ =~= Seq::<char>::empty());
        }
        r
    }
}

} // verus!
