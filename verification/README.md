# rust_vpn_splitter

Split-tunnel planning for FortiClient, F5 and Ivanti VPN clients that run side by side on
one Windows machine. Listed networks, domains and URLs take the VPN that they are listed
for; everything else keeps the path that Windows would choose without it.

`src/` is the library. It decides, and it is verified with Verus: what the functions
return and change is stated in their contracts, and what holds of several of them is
stated in the proof functions whose names begin with `law_`.

| module | what it holds |
| --- | --- |
| `text`, `lists`, `ipv4` | texts, lists and IPv4 networks |
| `domain` | VPNs, profiles and the targets that they list |
| `validation`, `validation_laws` | judging a whole configuration |
| `windows` | what Windows reports and is asked for |
| `powershell` | when a running script is waited for, stopped or collected |
| `routes`, `selection`, `fallback`, `preparation` | managed routes, interfaces, the path for everything else |
| `physical`, `physical_health`, `physical_laws`, `health_laws` | policy with one physical gateway |
| `dns_plan`, `policy`, `transaction`, `health`, `policy_laws` | policy with native routes and staged changes |
| `operations`, `state`, `session`, `card`, `session_laws` | what runs in the background, what is kept, what the window shows |

Two functions are trusted: `ipnet_parse` in `ipv4`, which reads a network with `ipnet`,
and `url_host` in `domain`, which reads a URL with `url`.

`app/` is the program around the library: the window, the files, the Win32 and PowerShell
calls and the threads. `tests/` runs the library.
